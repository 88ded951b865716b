//! Nothing is skipped: a tree is built only from a stream that was read
//! token by token, so a text with a lexical fault in it is never accepted.

use crate::ast::NodeView;
use crate::grammar::{
    advance, climb, expect, head, operand_prec, parse_atom, parse_expr, parse_operation, parse_text,
};
use crate::precedence::OperPrec;
use crate::token::TokenView;
use crate::tokenizer::{is_final, lemma_lex_shape, lex, tok, Lexeme};
use vstd::prelude::*;

verus! {

/// `rest` is what is left of `input` when some of its first lexemes have been
/// read, and each lexeme that was read is a token other than the end of input.
pub open spec fn is_rest_of(rest: Seq<Lexeme>, input: Seq<Lexeme>) -> bool {
    &&& rest.len() <= input.len()
    &&& rest =~= input.skip(input.len() - rest.len())
    &&& forall|i: int| 0 <= i < input.len() - rest.len() ==> !is_final(#[trigger] input[i])
}

/// What is left of what is left is left of the whole.
pub proof fn lemma_rest_of_rest(last: Seq<Lexeme>, rest: Seq<Lexeme>, input: Seq<Lexeme>)
    requires
        is_rest_of(last, rest),
        is_rest_of(rest, input),
    ensures
        is_rest_of(last, input),
{
    let k = input.len() - rest.len();
    let m = rest.len() - last.len();
    assert(last =~= input.skip(k + m));
    assert forall|i: int| 0 <= i < k + m implies !is_final(#[trigger] input[i]) by {
        if i >= k {
            assert(rest[i - k] == input[i]);
        }
    }
}

/// A step reads the token under the parser's eye and nothing else.
pub proof fn lemma_advance_reads(input: Seq<Lexeme>)
    requires
        !is_final(head(input)),
    ensures
        advance(input) matches Ok(rest) ==> is_rest_of(rest, input) && head(rest) is Ok,
{
    assert(input.drop_first() =~= input.skip(1));
}

/// A parsed atom was read token by token.
pub proof fn lemma_atom_reads(input: Seq<Lexeme>)
    ensures
        parse_atom(input) matches Ok((_, rest)) ==> is_rest_of(rest, input) && head(rest) is Ok,
    decreases input.len(), 0nat,
{
    if !is_final(head(input)) {
        lemma_advance_reads(input);
    }
    match head(input) {
        Ok(TokenView::Subtract) => {
            if let Ok(rest) = advance(input) {
                lemma_expr_reads(rest, OperPrec::Negative);
                if let Ok((_, last)) = parse_expr(rest, OperPrec::Negative) {
                    lemma_rest_of_rest(last, rest, input);
                }
            }
        },
        Ok(TokenView::LeftParen) => {
            if let Ok(rest) = advance(input) {
                lemma_expr_reads(rest, OperPrec::DefaultZero);
                if let Ok((_, inner_rest)) = parse_expr(rest, OperPrec::DefaultZero) {
                    lemma_rest_of_rest(inner_rest, rest, input);
                    if head(inner_rest) == tok(TokenView::RightParen) {
                        lemma_advance_reads(inner_rest);
                    }
                    if let Ok(after) = expect(inner_rest, TokenView::RightParen) {
                        lemma_rest_of_rest(after, inner_rest, input);
                        if after.len() < input.len() {
                            lemma_expr_reads(after, OperPrec::MulDiv);
                            if let Ok((_, last)) = parse_expr(after, OperPrec::MulDiv) {
                                lemma_rest_of_rest(last, after, input);
                            }
                        }
                    }
                }
            }
        },
        _ => {},
    }
}

/// A parsed expression was read token by token.
pub proof fn lemma_expr_reads(input: Seq<Lexeme>, min: OperPrec)
    ensures
        parse_expr(input, min) matches Ok((_, rest)) ==> is_rest_of(rest, input) && head(
            rest,
        ) is Ok,
    decreases input.len(), 1nat,
{
    lemma_atom_reads(input);
    if let Ok((left, rest)) = parse_atom(input) {
        if rest.len() < input.len() {
            lemma_climb_reads(left, rest, min);
            if let Ok((_, last)) = climb(left, rest, min) {
                lemma_rest_of_rest(last, rest, input);
            }
        }
    }
}

/// A parsed operation was read token by token.
pub proof fn lemma_operation_reads(left: NodeView, input: Seq<Lexeme>)
    ensures
        parse_operation(left, input) matches Ok((_, rest)) ==> is_rest_of(rest, input) && head(
            rest,
        ) is Ok,
    decreases input.len(), 0nat,
{
    if let Ok(op) = head(input) {
        if op.is_operator() {
            lemma_advance_reads(input);
            if let Ok(rest) = advance(input) {
                lemma_expr_reads(rest, operand_prec(op));
                if let Ok((_, last)) = parse_expr(rest, operand_prec(op)) {
                    lemma_rest_of_rest(last, rest, input);
                }
            }
        }
    }
}

/// What climbing takes was read token by token.
pub proof fn lemma_climb_reads(left: NodeView, input: Seq<Lexeme>, min: OperPrec)
    requires
        head(input) is Ok,
    ensures
        climb(left, input, min) matches Ok((_, rest)) ==> is_rest_of(rest, input) && head(
            rest,
        ) is Ok,
    decreases input.len(), 1nat,
{
    if head(input) matches Ok(op) && op.oper_prec().rank() > min.rank() {
        lemma_operation_reads(left, input);
        if let Ok((joined, rest)) = parse_operation(left, input) {
            if rest.len() < input.len() {
                lemma_climb_reads(joined, rest, min);
                if let Ok((_, last)) = climb(joined, rest, min) {
                    lemma_rest_of_rest(last, rest, input);
                }
            }
        }
    } else {
        assert(input =~= input.skip(0));
    }
}

/// Malformed input is rejected: a text whose stream of lexemes ends in an
/// error has no tree, wherever in the text the fault lies.
pub proof fn lemma_faulty_text_is_rejected(text: Seq<char>)
    requires
        lex(text).last() is Err,
    ensures
        parse_text(text) is Err,
{
    let input = lex(text);
    lemma_lex_shape(text, 0);
    lemma_expr_reads(input, OperPrec::DefaultZero);
    if let Ok((_, rest)) = parse_expr(input, OperPrec::DefaultZero) {
        let k = input.len() - rest.len();
        if rest.len() == 0 {
            assert(!is_final(input[input.len() - 1]));
        } else if head(rest) == tok(TokenView::EOF) {
            assert(rest[0] == input[k]);
            assert(is_final(input[k]));
        }
    }
}

/// An accepted text was read to its end: its stream holds no error, and its
/// tree was built from all of its tokens.
pub proof fn lemma_accepted_text_is_read_whole(text: Seq<char>)
    requires
        parse_text(text) is Ok,
    ensures
        lex(text).last() == tok(TokenView::EOF),
        forall|i: int| 0 <= i < lex(text).len() ==> (#[trigger] lex(text)[i]) is Ok,
        parse_expr(lex(text), OperPrec::DefaultZero) matches Ok((_, rest)) && rest == seq![
            tok(TokenView::EOF),
        ],
{
    let input = lex(text);
    lemma_lex_shape(text, 0);
    if input.last() is Err {
        lemma_faulty_text_is_rejected(text);
    }
    lemma_expr_reads(input, OperPrec::DefaultZero);
    if let Ok((_, rest)) = parse_expr(input, OperPrec::DefaultZero) {
        let k = input.len() - rest.len();
        if rest.len() > 0 {
            assert(rest[0] == input[k]);
            assert(is_final(input[k]));
            assert(rest =~= seq![tok(TokenView::EOF)]);
        } else {
            assert(!is_final(input[input.len() - 1]));
        }
    }
    assert forall|i: int| 0 <= i < input.len() implies (#[trigger] input[i]) is Ok by {
        if i < input.len() - 1 {
            assert(!is_final(input[i]));
        }
    }
}

} // verus!
