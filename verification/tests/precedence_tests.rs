use aee::{NumLit, OperPrec, Token};
use std::cmp::Ordering;

const LEVELS: [OperPrec; 5] = [
    OperPrec::DefaultZero,
    OperPrec::AddSub,
    OperPrec::MulDiv,
    OperPrec::Power,
    OperPrec::Negative,
];

#[test]
fn levels_rise_from_default_to_negative() {
    assert!(OperPrec::DefaultZero < OperPrec::AddSub);
    assert!(OperPrec::AddSub < OperPrec::MulDiv);
    assert!(OperPrec::MulDiv < OperPrec::Power);
    assert!(OperPrec::Power < OperPrec::Negative);
}

#[test]
fn levels_are_strictly_and_totally_ordered() {
    for (i, a) in LEVELS.iter().enumerate() {
        for (j, b) in LEVELS.iter().enumerate() {
            assert_eq!(a.partial_cmp(b), Some(i.cmp(&j)));
            assert_eq!(a < b, i < j);
            assert_eq!(a > b, i > j);
            assert_eq!(a <= b, i <= j);
            assert_eq!(a == b, i == j);
        }
    }
    assert_eq!(OperPrec::Power.partial_cmp(&OperPrec::Power), Some(Ordering::Equal));
}

#[test]
fn level_numbers_the_levels_from_zero() {
    for (i, a) in LEVELS.iter().enumerate() {
        assert_eq!(a.level() as usize, i);
    }
}

#[test]
fn operators_have_their_level() {
    assert_eq!(Token::Add.get_oper_prec(), OperPrec::AddSub);
    assert_eq!(Token::Subtract.get_oper_prec(), OperPrec::AddSub);
    assert_eq!(Token::Multiply.get_oper_prec(), OperPrec::MulDiv);
    assert_eq!(Token::Divide.get_oper_prec(), OperPrec::MulDiv);
    assert_eq!(Token::Caret.get_oper_prec(), OperPrec::Power);
}

#[test]
fn other_tokens_have_the_default_level() {
    assert_eq!(Token::LeftParen.get_oper_prec(), OperPrec::DefaultZero);
    assert_eq!(Token::RightParen.get_oper_prec(), OperPrec::DefaultZero);
    assert_eq!(Token::EOF.get_oper_prec(), OperPrec::DefaultZero);
    assert_eq!(Token::Num(NumLit::new("1").unwrap()).get_oper_prec(), OperPrec::DefaultZero);
}
