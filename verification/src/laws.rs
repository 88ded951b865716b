//! Laws of the grammar: precedence, grouping, negation, adjacent parentheses,
//! and what is rejected.
//!
//! Each law is stated twice: of operands of every shape, written as
//! [`spell_operand`] writes them, and of operands that are numbers, where the
//! stream can be read at a glance.

use crate::ast::NodeView;
use crate::grammar::{
    accepted, binary, built, leaf, lemma_adjacent_groups_are_atom, lemma_climb_stops,
    lemma_climb_takes, lemma_expr_from_atom, lemma_group_is_atom, lemma_head_tail,
    lemma_negation_is_atom, lemma_number_is_atom, operand_prec, parse_atom, parse_expr,
    parse_operation, parse_stream, rejected, unexpected,
};
use crate::precedence::OperPrec;
use crate::spelling::{
    lemma_operand_is_expr, lemma_operand_parses_back, lemma_spell_binary,
    lemma_spelling_begins_with_token, lemma_spelling_parses_back,
    lemma_spelling_parses_back_before, spell, spell_operand,
};
use crate::token::TokenView;
use crate::tokenizer::{num, tok, Lexeme};
use vstd::prelude::*;

verus! {

/// Whether, in `a op1 b op2 c`, the operand `b` belongs to `op2`: that is so
/// where `op2` binds more strongly than `op1`, and where both are `^`.
pub open spec fn right_takes_operand(op1: TokenView, op2: TokenView) -> bool {
    op2.oper_prec().rank() > op1.oper_prec().rank() || (op1 == TokenView::Caret && op2
        == TokenView::Caret)
}

/// Precedence and grouping: in `A op1 B op2 C`, the operand `B` goes to the
/// operator that binds more strongly; between operators of one level it goes
/// to the left one, but between two `^` to the right one.
pub proof fn lemma_precedence_between_operands(
    a: NodeView,
    op1: TokenView,
    b: NodeView,
    op2: TokenView,
    c: NodeView,
)
    requires
        op1.is_operator(),
        op2.is_operator(),
    ensures
        parse_stream(
            spell_operand(a) + (seq![tok(op1)] + (spell_operand(b) + (seq![tok(op2)] + (
            spell_operand(c) + seq![tok(TokenView::EOF)])))),
        ) == accepted(
            if right_takes_operand(op1, op2) {
                binary(op1, a, binary(op2, b, c))
            } else {
                binary(op2, binary(op1, a, b), c)
            },
        ),
{
    let zero = OperPrec::DefaultZero;
    let level1 = operand_prec(op1);
    let level2 = operand_prec(op2);
    let r5 = seq![tok(TokenView::EOF)];
    let r4 = spell_operand(c) + r5;
    let r3 = seq![tok(op2)] + r4;
    let r2 = spell_operand(b) + r3;
    let r1 = seq![tok(op1)] + r2;
    let r0 = spell_operand(a) + r1;
    lemma_spelling_begins_with_token(c, r5);
    lemma_spelling_begins_with_token(b, r3);
    lemma_head_tail(tok(op2), r4);
    lemma_head_tail(tok(op1), r2);
    // the operand behind the second operator
    lemma_operand_is_expr(c, r5, level2);
    // the first operand
    lemma_operand_parses_back(a, r1);
    lemma_expr_from_atom(r0, a, r1, zero);
    // the second operand, read as the right operand of the first operator
    lemma_operand_parses_back(b, r3);
    lemma_expr_from_atom(r2, b, r3, level1);
    if right_takes_operand(op1, op2) {
        let inner = binary(op2, b, c);
        lemma_climb_takes(b, op2, r4, level1, c, r5);
        lemma_climb_stops(inner, r5, level1);
        lemma_climb_takes(a, op1, r2, zero, inner, r5);
        lemma_climb_stops(binary(op1, a, inner), r5, zero);
    } else {
        let inner = binary(op1, a, b);
        lemma_climb_stops(b, r3, level1);
        lemma_climb_takes(a, op1, r2, zero, b, r3);
        lemma_climb_takes(inner, op2, r4, zero, c, r5);
        lemma_climb_stops(binary(op2, inner, c), r5, zero);
    }
}

/// Precedence and grouping between numbers: `2+3*4` is `2+(3*4)`, `2*3+4` is
/// `(2*3)+4`, `8-3-2` is `(8-3)-2`, and `2^3^2` is `2^(3^2)`.
pub proof fn lemma_two_operators(
    a: Seq<char>,
    op1: TokenView,
    b: Seq<char>,
    op2: TokenView,
    c: Seq<char>,
)
    requires
        op1.is_operator(),
        op2.is_operator(),
    ensures
        parse_stream(seq![num(a), tok(op1), num(b), tok(op2), num(c), tok(TokenView::EOF)])
            == accepted(
            if right_takes_operand(op1, op2) {
                binary(op1, leaf(a), binary(op2, leaf(b), leaf(c)))
            } else {
                binary(op2, binary(op1, leaf(a), leaf(b)), leaf(c))
            },
        ),
{
    lemma_precedence_between_operands(leaf(a), op1, leaf(b), op2, leaf(c));
    assert(seq![num(a), tok(op1), num(b), tok(op2), num(c), tok(TokenView::EOF)]
        =~= spell_operand(leaf(a)) + (seq![tok(op1)] + (spell_operand(leaf(b)) + (seq![tok(op2)]
        + (spell_operand(leaf(c)) + seq![tok(TokenView::EOF)])))));
}

/// Parentheses override precedence between numbers: `(a op1 b) op2 c` joins
/// `a` and `b` first, whatever the two operators are.  So `(2+3)*4` is the
/// product of `2+3` and `4`.
pub proof fn lemma_parentheses_group(
    a: Seq<char>,
    op1: TokenView,
    b: Seq<char>,
    op2: TokenView,
    c: Seq<char>,
)
    requires
        op1.is_operator(),
        op2.is_operator(),
    ensures
        parse_stream(
            seq![
                tok(TokenView::LeftParen),
                num(a),
                tok(op1),
                num(b),
                tok(TokenView::RightParen),
                tok(op2),
                num(c),
                tok(TokenView::EOF),
            ],
        ) == accepted(binary(op2, binary(op1, leaf(a), leaf(b)), leaf(c))),
{
    let sum = binary(op1, leaf(a), leaf(b));
    let tree = binary(op2, sum, leaf(c));
    lemma_spelling_parses_back(tree);
    lemma_spell_binary(op1, leaf(a), leaf(b));
    lemma_spell_binary(op2, sum, leaf(c));
    assert(seq![
        tok(TokenView::LeftParen),
        num(a),
        tok(op1),
        num(b),
        tok(TokenView::RightParen),
        tok(op2),
        num(c),
        tok(TokenView::EOF),
    ] =~= spell(tree) + seq![tok(TokenView::EOF)]);
}

/// A minus sign binds more strongly than every binary operator: `-A op B`
/// negates `A` alone.
pub proof fn lemma_negation_before_operator(a: NodeView, op: TokenView, b: NodeView)
    requires
        op.is_operator(),
    ensures
        parse_stream(
            seq![tok(TokenView::Subtract)] + (spell_operand(a) + (seq![tok(op)] + (spell_operand(b)
                + seq![tok(TokenView::EOF)]))),
        ) == accepted(binary(op, NodeView::Negative(Box::new(a)), b)),
{
    let zero = OperPrec::DefaultZero;
    let end = seq![tok(TokenView::EOF)];
    let r3 = spell_operand(b) + end;
    let r2 = seq![tok(op)] + r3;
    let r1 = spell_operand(a) + r2;
    let r0 = seq![tok(TokenView::Subtract)] + r1;
    let negated = NodeView::Negative(Box::new(a));
    lemma_spelling_begins_with_token(b, end);
    lemma_spelling_begins_with_token(a, r2);
    lemma_head_tail(tok(op), r3);
    lemma_operand_is_expr(a, r2, OperPrec::Negative);
    lemma_negation_is_atom(r1, a, r2);
    lemma_expr_from_atom(r0, negated, r2, zero);
    lemma_operand_is_expr(b, end, operand_prec(op));
    lemma_climb_takes(negated, op, r3, zero, b, end);
    lemma_climb_stops(binary(op, negated, b), end, zero);
}

/// A minus sign before a number binds more strongly than every binary
/// operator: `-2^2` is `(-2)^2`, and `-2+3` is `(-2)+3`.
pub proof fn lemma_negation_binds_tightest(a: Seq<char>, op: TokenView, b: Seq<char>)
    requires
        op.is_operator(),
    ensures
        parse_stream(
            seq![tok(TokenView::Subtract), num(a), tok(op), num(b), tok(TokenView::EOF)],
        ) == accepted(binary(op, NodeView::Negative(Box::new(leaf(a))), leaf(b))),
{
    lemma_negation_before_operator(leaf(a), op, leaf(b));
    assert(seq![tok(TokenView::Subtract), num(a), tok(op), num(b), tok(TokenView::EOF)]
        =~= seq![tok(TokenView::Subtract)] + (spell_operand(leaf(a)) + (seq![tok(op)] + (
    spell_operand(leaf(b)) + seq![tok(TokenView::EOF)]))));
}

/// The operand of a minus sign may stand in parentheses: `-(a op b)` negates
/// the whole of `a op b`.  So `-(2^2)` is the negation of `2^2`.
pub proof fn lemma_negation_of_group(a: Seq<char>, op: TokenView, b: Seq<char>)
    requires
        op.is_operator(),
    ensures
        parse_stream(
            seq![
                tok(TokenView::Subtract),
                tok(TokenView::LeftParen),
                num(a),
                tok(op),
                num(b),
                tok(TokenView::RightParen),
                tok(TokenView::EOF),
            ],
        ) == accepted(NodeView::Negative(Box::new(binary(op, leaf(a), leaf(b))))),
{
    let tree = NodeView::Negative(Box::new(binary(op, leaf(a), leaf(b))));
    lemma_spelling_parses_back(tree);
    lemma_spell_binary(op, leaf(a), leaf(b));
    assert(seq![
        tok(TokenView::Subtract),
        tok(TokenView::LeftParen),
        num(a),
        tok(op),
        num(b),
        tok(TokenView::RightParen),
        tok(TokenView::EOF),
    ] =~= spell(tree) + seq![tok(TokenView::EOF)]);
}

/// Two expressions in parentheses, one behind the other, are multiplied:
/// `(X)(Y)` is the product of `X` and `Y`.
pub proof fn lemma_adjacent_groups_multiply(x: NodeView, y: NodeView)
    ensures
        parse_stream(
            seq![tok(TokenView::LeftParen)] + (spell(x) + (seq![tok(TokenView::RightParen)] + (
            seq![tok(TokenView::LeftParen)] + (spell(y) + (seq![tok(TokenView::RightParen)]
                + seq![tok(TokenView::EOF)]))))),
        ) == accepted(NodeView::Multiply(Box::new(x), Box::new(y))),
{
    let zero = OperPrec::DefaultZero;
    let end = seq![tok(TokenView::EOF)];
    let r5 = seq![tok(TokenView::RightParen)] + end;
    let r4 = spell(y) + r5;
    let r3 = seq![tok(TokenView::LeftParen)] + r4;
    let r2 = seq![tok(TokenView::RightParen)] + r3;
    let r1 = spell(x) + r2;
    let r0 = seq![tok(TokenView::LeftParen)] + r1;
    let product = NodeView::Multiply(Box::new(x), Box::new(y));
    lemma_head_tail(tok(TokenView::RightParen), end);
    lemma_head_tail(tok(TokenView::LeftParen), r4);
    lemma_head_tail(tok(TokenView::RightParen), r3);
    lemma_spelling_begins_with_token(y, r5);
    lemma_spelling_begins_with_token(x, r2);
    // the second group
    lemma_spelling_parses_back_before(y, r5);
    lemma_group_is_atom(r4, y, end);
    lemma_expr_from_atom(r3, y, end, OperPrec::MulDiv);
    lemma_climb_stops(y, end, OperPrec::MulDiv);
    // the first group, and the second as its factor
    lemma_spelling_parses_back_before(x, r2);
    lemma_adjacent_groups_are_atom(r1, x, r3, y, end);
    lemma_expr_from_atom(r0, product, end, zero);
    lemma_climb_stops(product, end, zero);
}

/// Two numbers in parentheses, one behind the other, are multiplied:
/// `(2)(3)` is `2*3`.
pub proof fn lemma_adjacent_parentheses_multiply(a: Seq<char>, b: Seq<char>)
    ensures
        parse_stream(
            seq![
                tok(TokenView::LeftParen),
                num(a),
                tok(TokenView::RightParen),
                tok(TokenView::LeftParen),
                num(b),
                tok(TokenView::RightParen),
                tok(TokenView::EOF),
            ],
        ) == accepted(NodeView::Multiply(Box::new(leaf(a)), Box::new(leaf(b)))),
{
    lemma_adjacent_groups_multiply(leaf(a), leaf(b));
    assert(seq![
        tok(TokenView::LeftParen),
        num(a),
        tok(TokenView::RightParen),
        tok(TokenView::LeftParen),
        num(b),
        tok(TokenView::RightParen),
        tok(TokenView::EOF),
    ] =~= seq![tok(TokenView::LeftParen)] + (spell(leaf(a)) + (seq![tok(TokenView::RightParen)] + (
    seq![tok(TokenView::LeftParen)] + (spell(leaf(b)) + (seq![tok(TokenView::RightParen)]
        + seq![tok(TokenView::EOF)]))))));
}

/// A number before parentheses is not multiplied: `a(` is rejected at the
/// opening parenthesis, whatever follows.
pub proof fn lemma_number_before_parenthesis_is_rejected(a: Seq<char>, rest: Seq<Lexeme>)
    ensures
        parse_stream(seq![num(a)] + (seq![tok(TokenView::LeftParen)] + rest)) == rejected(
            unexpected(Some(TokenView::EOF), TokenView::LeftParen),
        ),
{
    let r1 = seq![tok(TokenView::LeftParen)] + rest;
    let r0 = seq![num(a)] + r1;
    lemma_head_tail(tok(TokenView::LeftParen), rest);
    lemma_number_is_atom(a, r1);
    lemma_expr_from_atom(r0, leaf(a), r1, OperPrec::DefaultZero);
    lemma_climb_stops(leaf(a), r1, OperPrec::DefaultZero);
}

/// Two numbers with nothing between them are rejected: the second one stands
/// where the input should end.  The text `2..3` is such a stream: its numbers
/// are `2.` and `.3`.
pub proof fn lemma_number_after_number_is_rejected(a: Seq<char>, b: Seq<char>, rest: Seq<Lexeme>)
    ensures
        parse_stream(seq![num(a)] + (seq![num(b)] + rest)) == rejected(
            unexpected(Some(TokenView::EOF), TokenView::Num(b)),
        ),
{
    let r1 = seq![num(b)] + rest;
    let r0 = seq![num(a)] + r1;
    lemma_head_tail(num(b), rest);
    lemma_number_is_atom(a, r1);
    lemma_expr_from_atom(r0, leaf(a), r1, OperPrec::DefaultZero);
    lemma_climb_stops(leaf(a), r1, OperPrec::DefaultZero);
}

/// An operator without a right operand is rejected: `A op` fails at the end
/// of input.  The text `2+` is such a stream.
pub proof fn lemma_missing_operand_is_rejected(a: NodeView, op: TokenView)
    requires
        op.is_operator(),
    ensures
        parse_stream(spell_operand(a) + seq![tok(op), tok(TokenView::EOF)]) == rejected(
            unexpected(None, TokenView::EOF),
        ),
{
    let zero = OperPrec::DefaultZero;
    let end = seq![tok(TokenView::EOF)];
    let r1 = seq![tok(op)] + end;
    let r0 = spell_operand(a) + r1;
    assert(r1 =~= seq![tok(op), tok(TokenView::EOF)]);
    lemma_head_tail(tok(op), end);
    lemma_operand_parses_back(a, r1);
    lemma_expr_from_atom(r0, a, r1, zero);
    assert(parse_atom(end) == Err::<(NodeView, Seq<Lexeme>), _>(unexpected(None, TokenView::EOF)));
    assert(parse_operation(a, r1) == Err::<(NodeView, Seq<Lexeme>), _>(
        unexpected(None, TokenView::EOF),
    ));
}

/// A parenthesis that is not closed is rejected: `(X` fails at the end of
/// input, where the closing parenthesis is missing.  The text `(2+3` is such
/// a stream.
pub proof fn lemma_unclosed_parenthesis_is_rejected(x: NodeView)
    ensures
        parse_stream(seq![tok(TokenView::LeftParen)] + (spell(x) + seq![tok(TokenView::EOF)]))
            == rejected(unexpected(Some(TokenView::RightParen), TokenView::EOF)),
{
    let end = seq![tok(TokenView::EOF)];
    let r1 = spell(x) + end;
    let r0 = seq![tok(TokenView::LeftParen)] + r1;
    lemma_spelling_begins_with_token(x, end);
    lemma_head_tail(tok(TokenView::LeftParen), r1);
    lemma_spelling_parses_back_before(x, end);
    assert(parse_expr(r1, OperPrec::DefaultZero) == built(x, end));
}

} // verus!
