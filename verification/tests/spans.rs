use std::sync::Arc;
use scifi::compile::parser::{OrderedTokenSpan, Parser};
use scifi::compile::token::TokenKind;

#[test]
fn spans_are_recorded_as_tokens_are_read() {
    let program: &[u8] = b"user player; x";
    let mut p = Parser::new(Arc::new(String::from("a.sf")));
    p.start(program);
    let (rest, t1) = p.next_token(program);
    assert!(matches!(t1.kind, TokenKind::Keyword(_)));
    assert_eq!((t1.span.start, t1.span.end), (1, 5));
    let (rest2, t2) = p.next_token(rest);
    assert!(matches!(t2.kind, TokenKind::Identifier(b"player")));
    // The first token starts where the program does, so its span is not
    // recorded apart from the program's start: the second token is placed
    // after the start.
    assert_eq!((t2.span.start, t2.span.end), (2, 8));
    // Reading the second token again places it where it was first read.
    let (_, again) = p.next_token(rest);
    assert_eq!((again.span.start, again.span.end), (2, 8));
    let (_, t3) = p.next_token(rest2);
    assert!(matches!(t3.kind, TokenKind::Semicolon));
    assert_eq!((t3.span.start, t3.span.end), (8, 9));
}

#[test]
fn looking_back_finds_the_token_before() {
    let program: &[u8] = b"a b c";
    let mut p = Parser::new(Arc::new(String::from("a.sf")));
    p.start(program);
    let (r1, _) = p.next_token(program);
    let (r2, _) = p.next_token(r1);
    let (_, t3) = p.next_token(r2);
    assert_eq!(t3.span.start, 4);
    let (span, fresh) = p.find_previous_token_span(r1);
    assert!(!fresh);
    assert_eq!((span.start, span.end), (1, 1));
    let (span, fresh) = p.find_previous_token_span(r2);
    assert!(!fresh);
    assert_eq!((span.start, span.end), (2, 3));
    let (span, fresh) = p.find_previous_token_span(program);
    assert!(!fresh);
    assert_eq!((span.start, span.end), (1, 1));
    p.clear_token_spans();
    let o = OrderedTokenSpan::new(b"abc", span);
    assert_eq!(o.remaining, 3);
}
