use std::sync::Arc;
use scifi::compile::token::{bytes_eq, Keyword, TokenKind, TokenSpan, TokenValue};
use scifi::compile::{optional, ParseErrorKind, Placeholder};
use scifi::later::Later;
use scifi::util::id;

fn span_at(file: &str, line: usize, start: usize, end: usize) -> TokenSpan {
    TokenSpan::with_position(Arc::new(String::from(file)), line, start, end)
}

#[test]
fn spans_join_within_a_file() {
    let a = span_at("a.sf", 1, 3, 5);
    let b = span_at("a.sf", 4, 7, 12);
    let j = a.from_to(&b);
    assert_eq!((j.line, j.end_line, j.start, j.end), (1, 4, 3, 12));
    let c = span_at("b.sf", 4, 7, 12);
    let k = a.from_to(&c);
    assert_eq!((k.line, k.end_line, k.start, k.end), (1, 1, 3, 5));
    let n = TokenSpan::new(Arc::new(String::from("a.sf")));
    assert_eq!((n.line, n.end_line, n.start, n.end), (1, 1, 1, 1));
}

#[test]
fn token_values() {
    let v = TokenValue::new(7i64, span_at("a.sf", 2, 1, 2));
    assert_eq!(*v.value(), 7);
    assert_eq!(v.span().line, 2);
    let d: TokenValue<i64> = TokenValue::with_default(&v);
    assert_eq!(*d.value(), 0);
    assert_eq!(d.span().line, 2);
    let r = TokenValue::with_span_range(true, &span_at("a.sf", 1, 1, 2), &span_at("a.sf", 3, 5, 9));
    assert_eq!((r.span().line, r.span().end_line, r.span().end), (1, 3, 9));
    assert_eq!(v.into_inner(), 7);
}

#[test]
fn token_kind_text() {
    assert_eq!(TokenKind::Eof.as_str(), b"end of input".to_vec());
    assert_eq!(TokenKind::Identifier(b"gem").as_str(), b"gem".to_vec());
    assert_eq!(TokenKind::Keyword(Keyword::Collectable).as_str(), b"collectable".to_vec());
    assert_eq!(TokenKind::GreaterEqual.as_str(), b">=".to_vec());
    assert_eq!(TokenKind::Integer(5).as_str(), b"integer".to_vec());
    assert_eq!(Keyword::SetStmt.as_str(), "set");
    assert_eq!(Keyword::Localized.as_str(), "localized");
}

#[test]
fn byte_comparison() {
    assert!(bytes_eq(b"abc", b"abc"));
    assert!(!bytes_eq(b"abc", b"abd"));
    assert!(!bytes_eq(b"abc", b"ab"));
}

#[test]
fn placeholders_and_later_values() {
    let mut p: Placeholder<u32> = Placeholder::new();
    assert_eq!(p.as_ref(), None);
    p.fill(3);
    assert_eq!(p.as_ref(), Some(&3));
    if let Some(x) = p.as_mut() {
        *x = 4;
    }
    assert_eq!(p.into_inner(), Some(4));
    let mut l: Later<u8> = Later::new();
    assert!(!l.is_set());
    l.set(1);
    assert!(l.is_set());
    assert_eq!(id(5), 5);
}

#[test]
fn optional_turns_mismatches_into_none() {
    let found = TokenValue::new(b"x".to_vec(), span_at("a.sf", 1, 1, 2));
    let r: Result<Option<u8>, ParseErrorKind> = optional(Err(ParseErrorKind::Unexpected(found)));
    assert!(matches!(r, Ok(None)));
    let r: Result<Option<u8>, ParseErrorKind> = optional(Ok(9));
    assert!(matches!(r, Ok(Some(9))));
    let r: Result<Option<u8>, ParseErrorKind> = optional(Err(ParseErrorKind::InvalidOperation("x", span_at("a.sf", 1, 1, 2))));
    assert!(matches!(r, Err(ParseErrorKind::InvalidOperation("x", _))));
}

#[test]
fn a_later_value_once_set() {
    let mut l: Later<u32> = Later::new();
    l.set(7);
    assert_eq!(*l.get(), 7);
    l.set(8);
    assert_eq!(*l.get(), 8);
}
