use std::sync::Arc;
use scifi::ast::expr::{BinaryExpr, Expr, ExprLiteral, ExprVar, Literal, PrefixExpr};
use scifi::ast::oper::{BinaryOperator, PostfixListOperator, PrefixOperator};
use scifi::ast::primary::{TimeSpanPart, TimeSpanUnit};
use scifi::ast::text::{binary_layout, int_bytes, postfix_layout, prefix_layout};
use scifi::ast::var::{ScopeFilter, ScopeKind, SCOPE_ALL};
use scifi::compile::token::{TokenSpan, TokenValue};

fn span() -> TokenSpan {
    TokenSpan::new(Arc::new(String::from("text.sf")))
}

fn tv<T>(v: T) -> TokenValue<T> {
    TokenValue::new(v, span())
}

fn var(s: &str) -> Expr {
    Expr::Var(ExprVar::new(tv(s.as_bytes().to_vec()), ScopeFilter::new(0, ScopeKind::new(SCOPE_ALL))))
}

fn int_lit(v: i64) -> Expr {
    Expr::Literal(ExprLiteral::new(Literal::Integer(tv(v)), 4))
}

fn text(v: Vec<u8>) -> String {
    String::from_utf8(v).unwrap()
}

#[test]
fn numbers_are_written_in_decimal() {
    assert_eq!(text(int_bytes(0)), "0");
    assert_eq!(text(int_bytes(1204)), "1204");
    assert_eq!(text(int_bytes(-37)), "-37");
    assert_eq!(text(int_bytes(i64::MIN)), "-9223372036854775808");
    assert_eq!(text(int_bytes(i64::MAX)), "9223372036854775807");
}

#[test]
fn literals_are_written_out() {
    assert_eq!(text(Literal::Option(tv(true)).to_text()), "yes");
    assert_eq!(text(Literal::Option(tv(false)).to_text()), "no");
    assert_eq!(text(Literal::Text(tv(b"hello".to_vec())).to_text()), "hello");
    assert_eq!(text(Literal::LocalizedText(tv(b"bonjour".to_vec())).to_text()), "bonjour");
    assert_eq!(text(Literal::Integer(tv(-5)).to_text()), "-5");
    let parts = vec![
        TimeSpanPart::new(tv(2), tv(TimeSpanUnit::Hours)).unwrap(),
        TimeSpanPart::new(tv(-30), tv(TimeSpanUnit::Minutes)).unwrap(),
    ];
    assert_eq!(text(Literal::TimeSpan(parts).to_text()), "2 hours -30 minutes");
    let one = vec![TimeSpanPart::new(tv(1), tv(TimeSpanUnit::Years)).unwrap()];
    assert_eq!(text(Literal::TimeSpan(one).to_text()), "1 years");
}

#[test]
fn expressions_are_written_out() {
    assert_eq!(text(var("speed").to_text()), "speed");
    let sum = Expr::Binary(BinaryExpr::new(tv(BinaryOperator::Add), var("a"), int_lit(1)));
    assert_eq!(text(sum.to_text()), "a + 1");
    let parens = Expr::Prefix(PrefixExpr::new(tv(PrefixOperator::Parens), sum));
    assert_eq!(text(parens.to_text()), "(a + 1)");
    let neg = Expr::Prefix(PrefixExpr::new(tv(PrefixOperator::Neg), parens));
    let both = Expr::Binary(BinaryExpr::new(tv(BinaryOperator::And), neg, var("b")));
    assert_eq!(text(both.to_text()), "-(a + 1) and b");
    let not = Expr::Prefix(PrefixExpr::new(tv(PrefixOperator::Not), var("c")));
    assert_eq!(text(not.to_text()), "!c");
}

#[test]
fn operators_are_laid_out_around_their_operands() {
    assert_eq!(prefix_layout(PrefixOperator::Parens, b"a + b"), b"(a + b)".to_vec());
    assert_eq!(prefix_layout(PrefixOperator::Neg, b"2.5"), b"-2.5".to_vec());
    assert_eq!(binary_layout(BinaryOperator::Mul, b"1.5", b"x"), b"1.5 * x".to_vec());
    assert_eq!(postfix_layout(PostfixListOperator::Call, b"f", b"[]"), b"f([])".to_vec());
    assert_eq!(postfix_layout(PostfixListOperator::Idx, b"v", b"[1]"), b"v[[1]]".to_vec());
}
