use std::sync::Arc;
use scifi::compile::lexer::{all_integers_fit, get_id_or_keyword, next_token, next_token_fits};
use scifi::compile::token::{keyword_from_bytes, Keyword, TokenKind, TokenSpan};

fn span() -> TokenSpan {
    TokenSpan::new(Arc::new(String::from("test.sf")))
}

#[test]
fn identifier_after_spaces() {
    let (rest, tok) = next_token(b"  foo bar", &span());
    assert_eq!(rest, b" bar");
    assert!(matches!(tok.kind, TokenKind::Identifier(b"foo")));
    assert_eq!(tok.span.line, 1);
    assert_eq!(tok.span.start, 3);
    assert_eq!(tok.span.end, 6);
}

#[test]
fn newline_resets_the_column() {
    let (rest, tok) = next_token(b"\n\n  y", &span());
    assert_eq!(rest, b"");
    assert!(matches!(tok.kind, TokenKind::Identifier(b"y")));
    assert_eq!(tok.span.line, 3);
    assert_eq!(tok.span.start, 3);
    assert_eq!(tok.span.end, 4);
}

#[test]
fn keyword_is_recognised() {
    let (_, tok) = next_token(b"collectable gem", &span());
    assert!(matches!(tok.kind, TokenKind::Keyword(Keyword::Collectable)));
    assert_eq!(keyword_from_bytes(b"include"), Some(Keyword::Include));
    assert_eq!(keyword_from_bytes(b"Include"), None);
    assert!(matches!(get_id_or_keyword(b"end"), TokenKind::Keyword(Keyword::End)));
    assert!(matches!(get_id_or_keyword(b"ending"), TokenKind::Identifier(b"ending")));
}

#[test]
fn a_colon_after_a_name_is_a_token_of_its_own() {
    let (rest, tok) = next_token(b"gem: end", &span());
    assert!(matches!(tok.kind, TokenKind::Identifier(b"gem")));
    assert_eq!(rest, b": end");
    let (rest, colon) = next_token(rest, &tok.span);
    assert!(matches!(colon.kind, TokenKind::Colon));
    assert_eq!(colon.span.start, 4);
    assert_eq!(colon.span.end, 5);
    assert_eq!(rest, b" end");
}

#[test]
fn escaped_identifier_may_spell_a_keyword() {
    let (rest, tok) = next_token(b"`end;", &span());
    assert!(matches!(tok.kind, TokenKind::Identifier(b"end")));
    assert_eq!(rest, b";");
}

#[test]
fn numbers() {
    let (_, tok) = next_token(b"123", &span());
    assert!(matches!(tok.kind, TokenKind::Integer(123)));
    let (_, tok) = next_token(b"1.5", &span());
    assert!(matches!(tok.kind, TokenKind::Decimal(b"1.5")));
    let (rest, tok) = next_token(b"50% x", &span());
    assert!(matches!(tok.kind, TokenKind::Percentage(b"50")));
    assert_eq!(rest, b" x");
    let (rest, tok) = next_token(b"7.x", &span());
    assert!(matches!(tok.kind, TokenKind::Integer(7)));
    assert_eq!(rest, b".x");
}

#[test]
fn strings() {
    let (rest, tok) = next_token(b"'it''s' x", &span());
    assert!(matches!(tok.kind, TokenKind::String(b"it''s")));
    assert_eq!(rest, b" x");
    let (rest, tok) = next_token(b"'open", &span());
    assert!(matches!(tok.kind, TokenKind::Invalid('\'')));
    assert_eq!(rest, b"open");
}

#[test]
fn operators() {
    let (rest, tok) = next_token(b"!=", &span());
    assert!(matches!(tok.kind, TokenKind::NotEqual));
    assert_eq!(rest, b"");
    let (rest, tok) = next_token(b"<=", &span());
    assert!(matches!(tok.kind, TokenKind::LessEqual));
    assert_eq!(rest, b"");
    let (rest, tok) = next_token(b">= 1", &span());
    assert!(matches!(tok.kind, TokenKind::GreaterEqual));
    assert_eq!(rest, b" 1");
    let (rest, tok) = next_token(b"<1", &span());
    assert!(matches!(tok.kind, TokenKind::Less));
    assert_eq!(rest, b"1");
    let (_, tok) = next_token(b"!", &span());
    assert!(matches!(tok.kind, TokenKind::Exclamation));
}

#[test]
fn comments_are_whitespace() {
    let (rest, tok) = next_token(b"# a comment\ny", &span());
    assert!(matches!(tok.kind, TokenKind::Identifier(b"y")));
    assert_eq!(tok.span.line, 2);
    assert_eq!(rest, b"");
}

#[test]
fn end_of_input() {
    let (rest, tok) = next_token(b"   ", &span());
    assert!(matches!(tok.kind, TokenKind::Eof));
    assert_eq!(rest, b"");
    assert_eq!(tok.span.start, 4);
    assert_eq!(tok.span.end, 4);
}

#[test]
fn x_is_a_keyword() {
    let (_, tok) = next_token(b"x", &span());
    assert!(matches!(tok.kind, TokenKind::Keyword(Keyword::X)));
}

#[test]
fn invalid_character() {
    let (rest, tok) = next_token(b"@x", &span());
    assert!(matches!(tok.kind, TokenKind::Invalid('@')));
    assert_eq!(rest, b"x");
}

#[test]
fn integer_limits_are_checked() {
    assert!(next_token_fits(b"9223372036854775807"));
    assert!(!next_token_fits(b"9223372036854775808"));
    assert!(next_token_fits(b"99999999999999999999.5"));
    assert!(all_integers_fit(b"a 1 b 2 c"));
    assert!(!all_integers_fit(b"a 1 b 99999999999999999999 c"));
}

#[test]
fn lexing_makes_progress() {
    let mut inp: &[u8] = b"user player; property score integer = 3 + x;";
    let mut last = span();
    let mut count = 0;
    loop {
        let (rest, tok) = next_token(inp, &last);
        if matches!(tok.kind, TokenKind::Eof) {
            break;
        }
        assert!(rest.len() < inp.len());
        inp = rest;
        last = tok.span;
        count += 1;
    }
    assert_eq!(count, 11);
}
