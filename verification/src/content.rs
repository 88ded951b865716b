//! Nothing is lost and nothing is made up: a tree holds the numbers and the
//! operators of its text, in the order of the text.  Parentheses leave no
//! node behind; a closing one before an opening one leaves a multiplication.

use crate::ast::NodeView;
use crate::faults::{
    is_rest_of, lemma_accepted_text_is_read_whole, lemma_advance_reads, lemma_atom_reads,
    lemma_climb_reads, lemma_expr_reads, lemma_operation_reads, lemma_rest_of_rest,
};
use crate::grammar::{
    advance, binary, climb, expect, head, operand_prec, parse_atom, parse_expr, parse_operation,
    parse_text,
};
use crate::precedence::OperPrec;
use crate::token::TokenView;
use crate::tokenizer::{lex, tok, Lexeme};
use vstd::prelude::*;

verus! {

/// The numbers and the operators of a tree, from left to right.
pub open spec fn inorder(tree: NodeView) -> Seq<TokenView>
    decreases tree,
{
    match tree {
        NodeView::Number(text) => seq![TokenView::Num(text)],
        NodeView::Negative(e) => seq![TokenView::Subtract] + inorder(*e),
        NodeView::Add(l, r) => inorder(*l) + (seq![TokenView::Add] + inorder(*r)),
        NodeView::Subtract(l, r) => inorder(*l) + (seq![TokenView::Subtract] + inorder(*r)),
        NodeView::Multiply(l, r) => inorder(*l) + (seq![TokenView::Multiply] + inorder(*r)),
        NodeView::Divide(l, r) => inorder(*l) + (seq![TokenView::Divide] + inorder(*r)),
        NodeView::Caret(l, r) => inorder(*l) + (seq![TokenView::Caret] + inorder(*r)),
    }
}

/// What a closing parenthesis leaves behind: a multiplication sign if an
/// opening parenthesis follows it, else nothing.
pub open spec fn implied(behind: Seq<Lexeme>) -> Seq<TokenView> {
    if head(behind) == tok(TokenView::LeftParen) {
        seq![TokenView::Multiply]
    } else {
        seq![]
    }
}

/// The numbers and the operators of a stream, from left to right, with a
/// multiplication sign for each closing parenthesis that stands before an
/// opening one.
pub open spec fn plain(input: Seq<Lexeme>) -> Seq<TokenView>
    decreases input.len(),
{
    if input.len() == 0 {
        seq![]
    } else {
        let behind = input.drop_first();
        match input[0] {
            Ok(TokenView::LeftParen) => plain(behind),
            Ok(TokenView::RightParen) => implied(behind) + plain(behind),
            Ok(TokenView::EOF) => plain(behind),
            Ok(t) => seq![t] + plain(behind),
            Err(_) => plain(behind),
        }
    }
}

/// What stands between the plain content of two streams when the second is
/// put behind the first.
pub open spec fn seam(before: Seq<Lexeme>, behind: Seq<Lexeme>) -> Seq<TokenView> {
    if before.len() > 0 && before.last() == tok(TokenView::RightParen) {
        implied(behind)
    } else {
        seq![]
    }
}

/// The part of `input` that was read when `rest` is left.
pub open spec fn read(input: Seq<Lexeme>, rest: Seq<Lexeme>) -> Seq<Lexeme> {
    input.take(input.len() - rest.len())
}

/// The plain content of two streams, one behind the other.
pub proof fn lemma_plain_concat(before: Seq<Lexeme>, behind: Seq<Lexeme>)
    ensures
        plain(before + behind) == plain(before) + (seam(before, behind) + plain(behind)),
    decreases before.len(),
{
    let whole = before + behind;
    if before.len() == 0 {
        assert(whole =~= behind);
        assert(plain(before) + (seam(before, behind) + plain(behind)) =~= plain(behind));
    } else {
        let shorter = before.drop_first();
        assert(whole.drop_first() =~= shorter + behind);
        lemma_plain_concat(shorter, behind);
        if shorter.len() == 0 {
            assert(shorter + behind =~= behind);
            assert(plain(shorter) =~= seq![]);
        } else {
            assert(shorter.last() == before.last());
            assert(head(shorter + behind) == head(shorter));
        }
        assert(plain(whole) =~= plain(before) + (seam(before, behind) + plain(behind)));
    }
}

/// The plain content of a stream that begins with a token which is neither a
/// parenthesis nor the end of input.
pub proof fn lemma_plain_after_token(t: TokenView, behind: Seq<Lexeme>)
    requires
        t != TokenView::LeftParen,
        t != TokenView::RightParen,
        t != TokenView::EOF,
    ensures
        plain(seq![tok(t)] + behind) == seq![t] + plain(behind),
{
    assert((seq![tok(t)] + behind).drop_first() =~= behind);
}

/// What was read in two steps is what was read in the first step, and behind
/// it what was read in the second.
pub proof fn lemma_read_in_steps(last: Seq<Lexeme>, rest: Seq<Lexeme>, input: Seq<Lexeme>)
    requires
        is_rest_of(last, rest),
        is_rest_of(rest, input),
    ensures
        read(input, last) == read(input, rest) + read(rest, last),
{
    assert(read(input, last) =~= read(input, rest) + read(rest, last));
}

/// What a step reads is the token under the parser's eye.
pub proof fn lemma_read_by_advance(input: Seq<Lexeme>, t: TokenView)
    requires
        head(input) == tok(t),
        t != TokenView::EOF,
    ensures
        advance(input) matches Ok(rest) ==> read(input, rest) == seq![tok(t)],
{
    if let Ok(rest) = advance(input) {
        assert(read(input, rest) =~= seq![tok(t)]);
    }
}

/// An atom holds what was read for it.
pub proof fn lemma_atom_content(input: Seq<Lexeme>)
    ensures
        parse_atom(input) matches Ok((tree, rest)) ==> plain(read(input, rest)) == inorder(tree),
    decreases input.len(), 0nat,
{
    if let Ok((tree, rest)) = parse_atom(input) {
        lemma_atom_reads(input);
        let first = head(input)->Ok_0;
        lemma_advance_reads(input);
        lemma_read_by_advance(input, first);
        let mid = advance(input)->Ok_0;
        match first {
            TokenView::Num(text) => {
                lemma_plain_after_token(first, seq![]);
                assert(seq![tok(first)] + seq![] =~= seq![tok(first)]);
                assert(plain(seq![]) =~= seq![]);
            },
            TokenView::Subtract => {
                lemma_expr_reads(mid, OperPrec::Negative);
                lemma_expr_content(mid, OperPrec::Negative);
                lemma_read_in_steps(rest, mid, input);
                lemma_plain_after_token(first, read(mid, rest));
            },
            _ => {
                lemma_expr_reads(mid, OperPrec::DefaultZero);
                lemma_expr_content(mid, OperPrec::DefaultZero);
                let (inner, closing) = parse_expr(mid, OperPrec::DefaultZero)->Ok_0;
                lemma_rest_of_rest(closing, mid, input);
                lemma_advance_reads(closing);
                lemma_read_by_advance(closing, TokenView::RightParen);
                let after = expect(closing, TokenView::RightParen)->Ok_0;
                lemma_rest_of_rest(after, closing, input);
                lemma_read_in_steps(closing, mid, input);
                lemma_read_in_steps(after, closing, input);
                let opening = seq![tok(TokenView::LeftParen)];
                let group = opening + read(mid, closing);
                let close = seq![tok(TokenView::RightParen)];
                assert(plain(opening.drop_first()) =~= seq![]);
                assert(plain(opening) =~= seq![]);
                lemma_plain_concat(opening, read(mid, closing));
                assert(plain(group) =~= inorder(inner));
                assert(plain(close.drop_first()) =~= seq![]);
                if head(after) == tok(TokenView::LeftParen) && after.len() < input.len() {
                    lemma_expr_reads(after, OperPrec::MulDiv);
                    lemma_expr_content(after, OperPrec::MulDiv);
                    let (right, _) = parse_expr(after, OperPrec::MulDiv)->Ok_0;
                    lemma_read_in_steps(rest, after, input);
                    let factor = read(after, rest);
                    assert(head(factor) == head(after));
                    let tail = close + factor;
                    assert(tail.drop_first() =~= factor);
                    assert(plain(tail) =~= seq![TokenView::Multiply] + inorder(right));
                    assert(read(input, rest) =~= group + tail);
                    lemma_plain_concat(group, tail);
                    assert(plain(read(input, rest)) =~= inorder(inner) + (seq![
                        TokenView::Multiply,
                    ] + inorder(right)));
                } else {
                    assert(plain(close) =~= seq![]);
                    assert(read(input, rest) =~= group + close);
                    lemma_plain_concat(group, close);
                    assert(plain(read(input, rest)) =~= inorder(inner));
                }
            },
        }
    }
}

/// An expression holds what was read for it.
pub proof fn lemma_expr_content(input: Seq<Lexeme>, min: OperPrec)
    ensures
        parse_expr(input, min) matches Ok((tree, rest)) ==> plain(read(input, rest)) == inorder(
            tree,
        ),
    decreases input.len(), 1nat,
{
    if let Ok((tree, rest)) = parse_expr(input, min) {
        lemma_atom_reads(input);
        lemma_atom_content(input);
        let (left, mid) = parse_atom(input)->Ok_0;
        lemma_climb_reads(left, mid, min);
        lemma_climb_content(left, mid, min);
        lemma_read_in_steps(rest, mid, input);
        lemma_plain_concat(read(input, mid), read(mid, rest));
        if read(mid, rest).len() > 0 {
            assert(head(read(mid, rest)) == head(mid));
        }
        assert(seam(read(input, mid), read(mid, rest)) =~= seq![]);
        assert(plain(read(input, rest)) =~= inorder(tree));
    }
}

/// An operation holds its left operand, and behind it what was read for the
/// operator and the right operand.
pub proof fn lemma_operation_content(left: NodeView, input: Seq<Lexeme>)
    ensures
        parse_operation(left, input) matches Ok((tree, rest)) ==> inorder(tree) == inorder(left)
            + plain(read(input, rest)),
    decreases input.len(), 0nat,
{
    if let Ok((tree, rest)) = parse_operation(left, input) {
        let op = head(input)->Ok_0;
        lemma_advance_reads(input);
        lemma_read_by_advance(input, op);
        let mid = advance(input)->Ok_0;
        lemma_expr_reads(mid, operand_prec(op));
        lemma_expr_content(mid, operand_prec(op));
        let (right, _) = parse_expr(mid, operand_prec(op))->Ok_0;
        lemma_read_in_steps(rest, mid, input);
        lemma_plain_after_token(op, read(mid, rest));
        assert(inorder(binary(op, left, right)) =~= inorder(left) + (seq![op] + inorder(right)));
    }
}

/// What climbing builds holds the tree it began with, and behind it what was
/// read on the way, which begins with an operator if anything was read.
pub proof fn lemma_climb_content(left: NodeView, input: Seq<Lexeme>, min: OperPrec)
    requires
        head(input) is Ok,
    ensures
        climb(left, input, min) matches Ok((tree, rest)) ==> inorder(tree) == inorder(left)
            + plain(read(input, rest)),
        climb(left, input, min) matches Ok((tree, rest)) ==> rest.len() < input.len() ==> head(
            input,
        )->Ok_0.is_operator(),
    decreases input.len(), 1nat,
{
    if let Ok((tree, rest)) = climb(left, input, min) {
        if head(input) matches Ok(op) && op.oper_prec().rank() > min.rank() {
            lemma_operation_reads(left, input);
            lemma_operation_content(left, input);
            let (joined, mid) = parse_operation(left, input)->Ok_0;
            lemma_climb_reads(joined, mid, min);
            lemma_climb_content(joined, mid, min);
            lemma_read_in_steps(rest, mid, input);
            lemma_plain_concat(read(input, mid), read(mid, rest));
            if read(mid, rest).len() > 0 {
                assert(head(read(mid, rest)) == head(mid));
            }
            assert(seam(read(input, mid), read(mid, rest)) =~= seq![]);
            assert(inorder(tree) =~= inorder(left) + plain(read(input, rest)));
        } else {
            assert(read(input, rest) =~= seq![]);
            assert(inorder(left) + plain(read(input, rest)) =~= inorder(tree));
        }
    }
}

/// The tree of an accepted text holds the numbers and the operators of the
/// text, all of them and in their order, and besides them only a
/// multiplication for each closing parenthesis that stands before an opening
/// one.
pub proof fn lemma_tree_keeps_the_text(text: Seq<char>)
    requires
        parse_text(text) is Ok,
    ensures
        inorder(parse_text(text)->Ok_0) == plain(lex(text)),
{
    let input = lex(text);
    let end = seq![tok(TokenView::EOF)];
    lemma_accepted_text_is_read_whole(text);
    lemma_expr_content(input, OperPrec::DefaultZero);
    assert(input =~= read(input, end) + end);
    lemma_plain_concat(read(input, end), end);
    assert(plain(end.drop_first()) =~= seq![]);
    assert(plain(end) =~= seq![]);
    assert(implied(end) =~= seq![]);
}

} // verus!
