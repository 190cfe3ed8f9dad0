use std::collections::HashMap;
use std::convert::TryFrom;
use std::sync::Arc;
use scifi::ast::oper::{BinaryOperator, PostfixListOperator, PrefixOperator};
use scifi::ast::primary::{TimeSpanPart, TimeSpanUnit, UNIT_REASON, YEARS_REASON};
use scifi::ast::AstErrorKind;
use scifi::compile::token::{Keyword, TokenKind, TokenSpan, TokenValue};
use scifi::util::InsertUnique;

fn span(start: usize, end: usize) -> TokenSpan {
    TokenSpan::with_position(Arc::new(String::from("a.sf")), 1, start, end)
}

#[test]
fn operator_tables() {
    assert_eq!(BinaryOperator::Pow.precedence(), 5);
    assert_eq!(BinaryOperator::Or.precedence(), 1);
    assert_eq!(BinaryOperator::Dot.precedence(), 7);
    assert!(BinaryOperator::Pow.right_recursive());
    assert!(!BinaryOperator::Add.right_recursive());
    assert_eq!(BinaryOperator::Ge.as_str(), ">=");
    assert_eq!(PrefixOperator::Parens.str_before(), "(");
    assert_eq!(PrefixOperator::Parens.str_after(), Some(")"));
    assert_eq!(PrefixOperator::Neg.str_after(), None);
    assert_eq!(PrefixOperator::Dot.precedence(), 8);
    assert_eq!(PostfixListOperator::Idx.str_before(), "[");
    assert_eq!(PostfixListOperator::Call.str_after(), ")");
}

#[test]
fn operators_from_tokens() {
    assert_eq!(BinaryOperator::try_from(TokenKind::Keyword(Keyword::And)), Ok(BinaryOperator::And));
    assert_eq!(BinaryOperator::try_from(TokenKind::Comma), Err(()));
    assert_eq!(PrefixOperator::try_from(TokenKind::Exclamation), Ok(PrefixOperator::Not));
    assert_eq!(PostfixListOperator::try_from(TokenKind::LSquareBracket), Ok(PostfixListOperator::Idx));
}

#[test]
fn time_span_parts() {
    let part = TimeSpanPart::new(TokenValue::new(72, span(1, 3)), TokenValue::new(TimeSpanUnit::Hours, span(4, 9))).unwrap();
    assert_eq!(part.amount(), 72);
    assert_eq!(part.unit(), TimeSpanUnit::Hours);
    assert_eq!((part.span().start, part.span().end), (1, 9));
    match TimeSpanPart::new(TokenValue::new(-73, span(1, 3)), TokenValue::new(TimeSpanUnit::Hours, span(4, 9))) {
        Err(AstErrorKind::ValueOutOfRange(v, reason, _)) => {
            assert_eq!(v, b"a.sf: (1, 1): -73".to_vec());
            assert_eq!(reason, UNIT_REASON);
        }
        other => panic!("{:?}", other.is_ok()),
    }
    match TimeSpanPart::new(TokenValue::new(6, span(1, 2)), TokenValue::new(TimeSpanUnit::Years, span(3, 8))) {
        Err(AstErrorKind::ValueOutOfRange(_, reason, _)) => assert_eq!(reason, YEARS_REASON),
        other => panic!("{:?}", other.is_ok()),
    }
    assert_eq!(TimeSpanUnit::Milliseconds.max_value(), 2000);
}

#[test]
fn insert_unique_keeps_the_first() {
    let mut m: HashMap<u32, &str> = HashMap::new();
    assert_eq!(m.insert_unique(1, "a"), Ok(()));
    assert_eq!(m.insert_unique(1, "b"), Err((1, "b")));
    assert_eq!(m.get(&1), Some(&"a"));
}
