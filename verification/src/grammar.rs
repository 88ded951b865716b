//! What parsing means: precedence climbing over a stream of lexemes.
//!
//! A stream is a sequence of lexemes whose first element is the token under
//! the parser's eye.  A stream that has run out reads as the end of input.  An
//! error in the stream comes to light when the parser steps onto it, never
//! before: a text whose fault lies behind the point where parsing has failed
//! for another reason fails for that other reason.
//!
//! The four parsing functions call each other, and each is defined by
//! recursion on the length of the stream.  Where one of them goes on with the
//! stream that another has left, it first tests that this stream is shorter
//! than its own.  The test never fails (`lemma_atom_consumes` and the three
//! lemmas behind it); the second part of this file states each function once
//! more without it.

use crate::ast::NodeView;
use crate::error::{FoundView, ParseErrorView};
use crate::precedence::OperPrec;
use crate::token::TokenView;
use crate::tokenizer::{lex, num, tok, Lexeme};
use vstd::prelude::*;

verus! {

/// The outcome of parsing a part of a stream: the tree that was built and the
/// stream that is left, or the reason why no tree could be built.
pub type Parsed = Result<(NodeView, Seq<Lexeme>), ParseErrorView>;

/// The outcome of parsing a whole stream: the tree, or the reason why there
/// is none.
pub type Outcome = Result<NodeView, ParseErrorView>;

/// The tree of the number written as `text`.
pub open spec fn leaf(text: Seq<char>) -> NodeView {
    NodeView::Number(text)
}

/// The outcome of a part that was parsed to `tree`, with `rest` left.
pub open spec fn built(tree: NodeView, rest: Seq<Lexeme>) -> Parsed {
    Ok((tree, rest))
}

/// The outcome of a stream that was parsed to `tree`.
pub open spec fn accepted(tree: NodeView) -> Outcome {
    Ok(tree)
}

/// The outcome of a stream that was turned away with `error`.
pub open spec fn rejected(error: ParseErrorView) -> Outcome {
    Err(error)
}

/// The error of finding the token `found` where it cannot stand.
pub open spec fn unexpected(expected: Option<TokenView>, found: TokenView) -> ParseErrorView {
    ParseErrorView::UnexpectedToken { expected, found: FoundView::Token(found) }
}

/// The lexeme under the parser's eye.
pub open spec fn head(input: Seq<Lexeme>) -> Lexeme {
    if input.len() > 0 {
        input[0]
    } else {
        tok(TokenView::EOF)
    }
}

/// The stream behind the lexeme under the parser's eye.
pub open spec fn tail(input: Seq<Lexeme>) -> Seq<Lexeme> {
    if input.len() > 0 {
        input.drop_first()
    } else {
        input
    }
}

/// A step to the next lexeme: the stream behind the current one, or the error
/// that stands there.
pub open spec fn advance(input: Seq<Lexeme>) -> Result<Seq<Lexeme>, ParseErrorView> {
    match head(tail(input)) {
        Err(e) => Err(e),
        Ok(_) => Ok(tail(input)),
    }
}

/// A step over the token `expected`, which must be the one under the parser's
/// eye.
pub open spec fn expect(input: Seq<Lexeme>, expected: TokenView) -> Result<
    Seq<Lexeme>,
    ParseErrorView,
> {
    match head(input) {
        Err(e) => Err(e),
        Ok(found) => if found == expected {
            advance(input)
        } else {
            Err(unexpected(Some(expected), found))
        },
    }
}

/// Whether an atom can begin with the token: with a number, a minus sign or
/// an opening parenthesis.
pub open spec fn begins_atom(t: TokenView) -> bool {
    t is Num || t == TokenView::Subtract || t == TokenView::LeftParen
}

/// The level at which the right operand of a binary operator is parsed.
///
/// For `+ - * /` it is the operator's own level: an operator of the same level
/// that follows is left for the caller, which makes these operators group to
/// the left.  For `^` it is the level below its own: a `^` that follows is
/// taken into the operand, which makes exponentiation group to the right.
pub open spec fn operand_prec(op: TokenView) -> OperPrec {
    match op {
        TokenView::Caret => OperPrec::MulDiv,
        _ => op.oper_prec(),
    }
}

/// The tree of a binary operation.
pub open spec fn binary(op: TokenView, left: NodeView, right: NodeView) -> NodeView {
    match op {
        TokenView::Add => NodeView::Add(Box::new(left), Box::new(right)),
        TokenView::Subtract => NodeView::Subtract(Box::new(left), Box::new(right)),
        TokenView::Multiply => NodeView::Multiply(Box::new(left), Box::new(right)),
        TokenView::Divide => NodeView::Divide(Box::new(left), Box::new(right)),
        _ => NodeView::Caret(Box::new(left), Box::new(right)),
    }
}

/// Parses an atom: a number, a negated operand, or an expression in
/// parentheses.
///
/// The operand of a minus sign is parsed at the level `Negative`, so it ends
/// before any binary operator.  Behind a closing parenthesis, an opening one
/// stands for a multiplication: its right operand is parsed at the level
/// `MulDiv`.
pub open spec fn parse_atom(input: Seq<Lexeme>) -> Parsed
    decreases input.len(), 0nat,
{
    match head(input) {
        Err(e) => Err(e),
        Ok(TokenView::Num(text)) => match advance(input) {
            Err(e) => Err(e),
            Ok(rest) => built(leaf(text), rest),
        },
        Ok(TokenView::Subtract) => match advance(input) {
            Err(e) => Err(e),
            Ok(rest) => match parse_expr(rest, OperPrec::Negative) {
                Err(e) => Err(e),
                Ok((operand, rest)) => built(NodeView::Negative(Box::new(operand)), rest),
            },
        },
        Ok(TokenView::LeftParen) => match advance(input) {
            Err(e) => Err(e),
            Ok(rest) => match parse_expr(rest, OperPrec::DefaultZero) {
                Err(e) => Err(e),
                Ok((inner, rest)) => match expect(rest, TokenView::RightParen) {
                    Err(e) => Err(e),
                    Ok(rest) => if head(rest) == tok(TokenView::LeftParen) && rest.len()
                        < input.len() {
                        match parse_expr(rest, OperPrec::MulDiv) {
                            Err(e) => Err(e),
                            Ok((right, rest)) => built(
                                NodeView::Multiply(Box::new(inner), Box::new(right)),
                                rest,
                            ),
                        }
                    } else {
                        built(inner, rest)
                    },
                },
            },
        },
        Ok(found) => Err(unexpected(None, found)),
    }
}

/// Parses an expression whose operators all bind more strongly than `min`:
/// an atom, and the operations that follow it.
pub open spec fn parse_expr(input: Seq<Lexeme>, min: OperPrec) -> Parsed
    decreases input.len(), 1nat,
{
    match parse_atom(input) {
        Err(e) => Err(e),
        Ok((left, rest)) => if rest.len() < input.len() {
            climb(left, rest, min)
        } else {
            built(left, rest)
        },
    }
}

/// Parses a binary operator and its right operand, and joins them to `left`.
pub open spec fn parse_operation(left: NodeView, input: Seq<Lexeme>) -> Parsed
    decreases input.len(), 0nat,
{
    match head(input) {
        Err(e) => Err(e),
        Ok(op) => if op.is_operator() {
            match advance(input) {
                Err(e) => Err(e),
                Ok(rest) => match parse_expr(rest, operand_prec(op)) {
                    Err(e) => Err(e),
                    Ok((right, rest)) => built(binary(op, left, right), rest),
                },
            }
        } else {
            Err(unexpected(None, op))
        },
    }
}

/// Extends `left` by the operations that follow, as long as their operators
/// bind more strongly than `min`.
pub open spec fn climb(left: NodeView, input: Seq<Lexeme>, min: OperPrec) -> Parsed
    decreases input.len(), 1nat,
{
    if head(input) matches Ok(op) && op.oper_prec().rank() > min.rank() {
        match parse_operation(left, input) {
            Err(e) => Err(e),
            Ok((joined, rest)) => if rest.len() < input.len() {
                climb(joined, rest, min)
            } else {
                built(joined, rest)
            },
        }
    } else {
        built(left, input)
    }
}

/// Parses a whole stream: an expression, and behind it the end of input.
pub open spec fn parse_stream(input: Seq<Lexeme>) -> Outcome {
    match parse_expr(input, OperPrec::DefaultZero) {
        Err(e) => rejected(e),
        Ok((tree, rest)) => match head(rest) {
            Err(e) => rejected(e),
            Ok(TokenView::EOF) => accepted(tree),
            Ok(found) => rejected(unexpected(Some(TokenView::EOF), found)),
        },
    }
}

/// Parses a text: the tree of the expression that the text spells, or the
/// reason why it spells none.
pub open spec fn parse_text(text: Seq<char>) -> Outcome {
    parse_stream(lex(text))
}

/// A parsed atom takes at least one lexeme from the stream.
pub proof fn lemma_atom_consumes(input: Seq<Lexeme>)
    ensures
        parse_atom(input) matches Ok((_, rest)) ==> rest.len() < input.len(),
    decreases input.len(), 0nat,
{
    match head(input) {
        Ok(TokenView::Subtract) => {
            if let Ok(rest) = advance(input) {
                lemma_expr_consumes(rest, OperPrec::Negative);
            }
        },
        Ok(TokenView::LeftParen) => {
            if let Ok(rest) = advance(input) {
                lemma_expr_consumes(rest, OperPrec::DefaultZero);
                if let Ok((inner, rest)) = parse_expr(rest, OperPrec::DefaultZero) {
                    if let Ok(rest) = expect(rest, TokenView::RightParen) {
                        if rest.len() < input.len() {
                            lemma_expr_consumes(rest, OperPrec::MulDiv);
                        }
                    }
                }
            }
        },
        _ => {},
    }
}

/// A parsed expression takes at least one lexeme from the stream.
pub proof fn lemma_expr_consumes(input: Seq<Lexeme>, min: OperPrec)
    ensures
        parse_expr(input, min) matches Ok((_, rest)) ==> rest.len() < input.len(),
    decreases input.len(), 1nat,
{
    lemma_atom_consumes(input);
    if let Ok((left, rest)) = parse_atom(input) {
        lemma_climb_consumes(left, rest, min);
    }
}

/// A parsed operation takes at least one lexeme from the stream.
pub proof fn lemma_operation_consumes(left: NodeView, input: Seq<Lexeme>)
    ensures
        parse_operation(left, input) matches Ok((_, rest)) ==> rest.len() < input.len(),
    decreases input.len(), 0nat,
{
    if let Ok(op) = head(input) {
        if op.is_operator() {
            if let Ok(rest) = advance(input) {
                lemma_expr_consumes(rest, operand_prec(op));
            }
        }
    }
}

/// Climbing never gives back more of the stream than it was given.
pub proof fn lemma_climb_consumes(left: NodeView, input: Seq<Lexeme>, min: OperPrec)
    ensures
        climb(left, input, min) matches Ok((_, rest)) ==> rest.len() <= input.len(),
    decreases input.len(), 1nat,
{
    if head(input) matches Ok(op) && op.oper_prec().rank() > min.rank() {
        lemma_operation_consumes(left, input);
        if let Ok((joined, rest)) = parse_operation(left, input) {
            lemma_climb_consumes(joined, rest, min);
        }
    }
}

/// The first lexeme of a stream and the stream behind it.
pub proof fn lemma_head_tail(first: Lexeme, rest: Seq<Lexeme>)
    ensures
        head(seq![first] + rest) == first,
        tail(seq![first] + rest) == rest,
        head(rest) is Ok ==> advance(seq![first] + rest) == Ok::<Seq<Lexeme>, ParseErrorView>(
            rest,
        ),
{
    assert((seq![first] + rest).drop_first() =~= rest);
}

/// A number before a readable lexeme is an atom.
pub proof fn lemma_number_is_atom(text: Seq<char>, rest: Seq<Lexeme>)
    requires
        head(rest) is Ok,
    ensures
        parse_atom(seq![num(text)] + rest) == built(leaf(text), rest),
{
    lemma_head_tail(num(text), rest);
}

/// A minus sign before an operand is an atom: the negated operand.
pub proof fn lemma_negation_is_atom(rest: Seq<Lexeme>, operand: NodeView, after: Seq<Lexeme>)
    requires
        head(rest) is Ok,
        parse_expr(rest, OperPrec::Negative) == built(operand, after),
    ensures
        parse_atom(seq![tok(TokenView::Subtract)] + rest) == built(
            NodeView::Negative(Box::new(operand)),
            after,
        ),
{
    lemma_head_tail(tok(TokenView::Subtract), rest);
}

/// An expression in parentheses, before a readable lexeme that is no opening
/// parenthesis, is an atom: the expression itself.
pub proof fn lemma_group_is_atom(rest: Seq<Lexeme>, inner: NodeView, after: Seq<Lexeme>)
    requires
        head(rest) is Ok,
        parse_expr(rest, OperPrec::DefaultZero) == built(
            inner,
            seq![tok(TokenView::RightParen)] + after,
        ),
        head(after) is Ok,
        head(after) != tok(TokenView::LeftParen),
    ensures
        parse_atom(seq![tok(TokenView::LeftParen)] + rest) == built(inner, after),
{
    lemma_head_tail(tok(TokenView::LeftParen), rest);
    lemma_head_tail(tok(TokenView::RightParen), after);
}

/// Two expressions in parentheses, one behind the other, are an atom: their
/// product.
pub proof fn lemma_adjacent_groups_are_atom(
    rest: Seq<Lexeme>,
    inner: NodeView,
    after: Seq<Lexeme>,
    right: NodeView,
    end: Seq<Lexeme>,
)
    requires
        head(rest) is Ok,
        parse_expr(rest, OperPrec::DefaultZero) == built(
            inner,
            seq![tok(TokenView::RightParen)] + after,
        ),
        head(after) == tok(TokenView::LeftParen),
        parse_expr(after, OperPrec::MulDiv) == built(right, end),
    ensures
        parse_atom(seq![tok(TokenView::LeftParen)] + rest) == built(
            NodeView::Multiply(Box::new(inner), Box::new(right)),
            end,
        ),
{
    lemma_head_tail(tok(TokenView::LeftParen), rest);
    lemma_head_tail(tok(TokenView::RightParen), after);
    lemma_expr_consumes(rest, OperPrec::DefaultZero);
}

/// An expression that begins with the atom `left` is what climbing makes of
/// the atom.
pub proof fn lemma_expr_from_atom(
    input: Seq<Lexeme>,
    left: NodeView,
    rest: Seq<Lexeme>,
    min: OperPrec,
)
    requires
        parse_atom(input) == built(left, rest),
    ensures
        parse_expr(input, min) == climb(left, rest, min),
{
    lemma_atom_consumes(input);
}

/// Climbing stops before a token that does not bind more strongly than `min`.
pub proof fn lemma_climb_stops(left: NodeView, input: Seq<Lexeme>, min: OperPrec)
    requires
        head(input) matches Ok(t) && t.oper_prec().rank() <= min.rank(),
    ensures
        climb(left, input, min) == built(left, input),
{
}

/// Climbing takes an operator that binds more strongly than `min`, with the
/// operand that follows it, and goes on from the joined tree.
pub proof fn lemma_climb_takes(
    left: NodeView,
    op: TokenView,
    rest: Seq<Lexeme>,
    min: OperPrec,
    right: NodeView,
    after: Seq<Lexeme>,
)
    requires
        op.oper_prec().rank() > min.rank(),
        head(rest) is Ok,
        parse_expr(rest, operand_prec(op)) == built(right, after),
    ensures
        climb(left, seq![tok(op)] + rest, min) == climb(binary(op, left, right), after, min),
{
    let input = seq![tok(op)] + rest;
    lemma_head_tail(tok(op), rest);
    lemma_operation_consumes(left, input);
    assert(parse_operation(left, input) == built(binary(op, left, right), after));
}

} // verus!
