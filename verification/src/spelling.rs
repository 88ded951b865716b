//! Writing a tree down: every tree has a spelling that parses back to it.

use crate::ast::NodeView;
use crate::grammar::{
    accepted, binary, built, head, lemma_climb_stops, lemma_climb_takes, lemma_expr_from_atom,
    lemma_group_is_atom, lemma_head_tail, lemma_negation_is_atom, lemma_number_is_atom,
    operand_prec, parse_atom, parse_expr, parse_stream,
};
use crate::precedence::OperPrec;
use crate::token::TokenView;
use crate::tokenizer::{num, tok, Lexeme};
use vstd::prelude::*;

verus! {

/// The operator token of a binary node; `None` for a number and a negation.
pub open spec fn operator_of(tree: NodeView) -> Option<TokenView> {
    match tree {
        NodeView::Add(_, _) => Some(TokenView::Add),
        NodeView::Subtract(_, _) => Some(TokenView::Subtract),
        NodeView::Multiply(_, _) => Some(TokenView::Multiply),
        NodeView::Divide(_, _) => Some(TokenView::Divide),
        NodeView::Caret(_, _) => Some(TokenView::Caret),
        _ => None,
    }
}

/// The operands of a binary node.
pub open spec fn operands_of(tree: NodeView) -> (NodeView, NodeView) {
    match tree {
        NodeView::Add(l, r) => (*l, *r),
        NodeView::Subtract(l, r) => (*l, *r),
        NodeView::Multiply(l, r) => (*l, *r),
        NodeView::Divide(l, r) => (*l, *r),
        NodeView::Caret(l, r) => (*l, *r),
        _ => (tree, tree),
    }
}

/// The spelling of a tree as an operand: a number as it is, every other tree
/// in parentheses.
pub open spec fn spell_operand(tree: NodeView) -> Seq<Lexeme>
    decreases tree, 1nat,
{
    match tree {
        NodeView::Number(text) => seq![num(text)],
        _ => seq![tok(TokenView::LeftParen)] + (spell(tree) + seq![tok(TokenView::RightParen)]),
    }
}

/// The spelling of a tree: its operator between its operands, or the minus
/// sign before its operand, or the number itself.
pub open spec fn spell(tree: NodeView) -> Seq<Lexeme>
    decreases tree, 0nat,
{
    match tree {
        NodeView::Number(text) => seq![num(text)],
        NodeView::Negative(e) => seq![tok(TokenView::Subtract)] + spell_operand(*e),
        NodeView::Add(l, r) => spell_operand(*l) + (seq![tok(TokenView::Add)] + spell_operand(*r)),
        NodeView::Subtract(l, r) => spell_operand(*l) + (seq![tok(TokenView::Subtract)]
            + spell_operand(*r)),
        NodeView::Multiply(l, r) => spell_operand(*l) + (seq![tok(TokenView::Multiply)]
            + spell_operand(*r)),
        NodeView::Divide(l, r) => spell_operand(*l) + (seq![tok(TokenView::Divide)]
            + spell_operand(*r)),
        NodeView::Caret(l, r) => spell_operand(*l) + (seq![tok(TokenView::Caret)] + spell_operand(
            *r,
        )),
    }
}

/// The spelling of a binary operation: the operator between the operands.
pub proof fn lemma_spell_binary(op: TokenView, left: NodeView, right: NodeView)
    requires
        op.is_operator(),
    ensures
        spell(binary(op, left, right)) == spell_operand(left) + (seq![tok(op)] + spell_operand(
            right,
        )),
        spell_operand(binary(op, left, right)) == seq![tok(TokenView::LeftParen)] + (spell(
            binary(op, left, right),
        ) + seq![tok(TokenView::RightParen)]),
{
    match op {
        TokenView::Add => {},
        TokenView::Subtract => {},
        TokenView::Multiply => {},
        TokenView::Divide => {},
        _ => {},
    }
}

/// A spelling begins with a token.
pub proof fn lemma_spelling_begins_with_token(tree: NodeView, after: Seq<Lexeme>)
    ensures
        head(spell_operand(tree) + after) is Ok,
        head(spell(tree) + after) is Ok,
    decreases tree,
{
    match tree {
        NodeView::Number(_) => {},
        NodeView::Negative(_) => {},
        NodeView::Add(l, _) => lemma_spelling_begins_with_token(*l, after),
        NodeView::Subtract(l, _) => lemma_spelling_begins_with_token(*l, after),
        NodeView::Multiply(l, _) => lemma_spelling_begins_with_token(*l, after),
        NodeView::Divide(l, _) => lemma_spelling_begins_with_token(*l, after),
        NodeView::Caret(l, _) => lemma_spelling_begins_with_token(*l, after),
    }
    assert(spell_operand(tree).len() > 0);
    assert(spell(tree).len() > 0);
    assert((spell_operand(tree) + after)[0] == spell_operand(tree)[0]);
    assert((spell(tree) + after)[0] == spell(tree)[0]);
    match tree {
        NodeView::Add(l, _) | NodeView::Subtract(l, _) | NodeView::Multiply(l, _)
        | NodeView::Divide(l, _) | NodeView::Caret(l, _) => {
            assert(spell(tree)[0] == spell_operand(*l)[0]);
            assert((spell_operand(*l) + after)[0] == spell_operand(*l)[0]);
        },
        _ => {},
    }
}

/// The spelling of a tree as an operand is an atom that parses to the tree,
/// before every token but an opening parenthesis.
pub proof fn lemma_operand_parses_back(tree: NodeView, after: Seq<Lexeme>)
    requires
        head(after) is Ok,
        head(after) != tok(TokenView::LeftParen),
    ensures
        parse_atom(spell_operand(tree) + after) == built(tree, after),
    decreases tree, 1nat,
{
    match tree {
        NodeView::Number(text) => {
            lemma_number_is_atom(text, after);
        },
        _ => {
            let closing = seq![tok(TokenView::RightParen)] + after;
            let inside = spell(tree) + closing;
            assert(spell_operand(tree) + after =~= seq![tok(TokenView::LeftParen)] + inside);
            lemma_head_tail(tok(TokenView::RightParen), after);
            lemma_spelling_begins_with_token(tree, closing);
            lemma_spelling_parses_back_before(tree, closing);
            lemma_group_is_atom(inside, tree, after);
        },
    }
}

/// The spelling of a tree is an expression that parses to the tree, before
/// every token that is neither an operator nor an opening parenthesis.
pub proof fn lemma_spelling_parses_back_before(tree: NodeView, after: Seq<Lexeme>)
    requires
        head(after) matches Ok(t) && !t.is_operator() && t != TokenView::LeftParen,
    ensures
        parse_expr(spell(tree) + after, OperPrec::DefaultZero) == built(tree, after),
    decreases tree, 0nat,
{
    let zero = OperPrec::DefaultZero;
    let input = spell(tree) + after;
    match tree {
        NodeView::Number(text) => {
            lemma_number_is_atom(text, after);
            lemma_expr_from_atom(input, tree, after, zero);
        },
        NodeView::Negative(e) => {
            let operand = spell_operand(*e) + after;
            assert(input =~= seq![tok(TokenView::Subtract)] + operand);
            lemma_spelling_begins_with_token(*e, after);
            lemma_operand_is_expr(*e, after, OperPrec::Negative);
            lemma_negation_is_atom(operand, *e, after);
            lemma_expr_from_atom(input, tree, after, zero);
        },
        _ => {
            let op = operator_of(tree)->0;
            let (l, r) = operands_of(tree);
            let right = spell_operand(r) + after;
            let behind = seq![tok(op)] + right;
            assert(input =~= spell_operand(l) + behind);
            lemma_head_tail(tok(op), right);
            lemma_spelling_begins_with_token(r, after);
            lemma_operand_parses_back(l, behind);
            lemma_expr_from_atom(input, l, behind, zero);
            lemma_operand_is_expr(r, after, operand_prec(op));
            lemma_climb_takes(l, op, right, zero, r, after);
            assert(binary(op, l, r) == tree);
        },
    }
    lemma_climb_stops(tree, after, zero);
}

/// The spelling of a tree as an operand is an expression at the level
/// `min`, before a token that does not bind more strongly than `min` and is
/// no opening parenthesis.
pub proof fn lemma_operand_is_expr(tree: NodeView, after: Seq<Lexeme>, min: OperPrec)
    requires
        head(after) matches Ok(t) && t.oper_prec().rank() <= min.rank() && t
            != TokenView::LeftParen,
    ensures
        parse_expr(spell_operand(tree) + after, min) == built(tree, after),
    decreases tree, 2nat,
{
    lemma_operand_parses_back(tree, after);
    lemma_expr_from_atom(spell_operand(tree) + after, tree, after, min);
    lemma_climb_stops(tree, after, min);
}

/// Every tree can be written down: its spelling, with the end of input
/// behind it, parses to the tree itself.
///
/// So the parser can build every tree, and of the parentheses in a text
/// nothing is kept but the shape of the tree: `(2+3)*4` is the product of a
/// sum and a number, and `-(2^2)` is the negation of a power.
pub proof fn lemma_spelling_parses_back(tree: NodeView)
    ensures
        parse_stream(spell(tree) + seq![tok(TokenView::EOF)]) == accepted(tree),
{
    lemma_spelling_parses_back_before(tree, seq![tok(TokenView::EOF)]);
}

} // verus!
