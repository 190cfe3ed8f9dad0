use vstd::prelude::*;
use std::sync::Arc;
use super::{ParseErrorKind, optional, is_mismatch};
use vstd::string::StringExecFns;
use crate::ast::expr::{DecimalSource, Expr, ExprLiteral, ExprVar, Literal, BinaryExpr, PrefixExpr, PostfixListExpr, all_respect_precedence, bind_limit, expr_has_span, respects_precedence, top_binds};
use crate::ast::oper::{BinaryOperator, POSTFIX_PRECEDENCE, PostfixListOperator, PrefixOperator, binary_of, binary_precedence, postfix_of, prefix_of, prefix_precedence};
use crate::ast::primary::TimeSpanPart;
use crate::ast::tree::{Ast, is_fresh_custom, program_resolves, types_kept, defined_fresh, fresh_type_added, array_name_text, ast_grew, decimal_bytes, decimal_text, find_type, lemma_ast_grew_append, lemma_ast_grew_refl, lemma_ast_grew_trans, lemma_ast_grew_update, primitive_slot, same_kind, lemma_same_kind_refl, GLOBAL_SCOPE};
use crate::ast::{AstErrorKind, ItemRef, is_duplicate};
use crate::ast::resolve::{expr_scopes_in, exprs_scopes_in, init_in};
use crate::split_vec::{SplitVec, lemma_move_changes_left_by_the_item};
use crate::ast::var::Variable;
use crate::ast::ty::{Collectable, CollectableGroup, ArrayName, AutoGrouping, BaseCustomType, CustomType, custom_base, EarlyRefType, PrimitiveType, Redemption, Type, Upgrade, base_type_name, primitive_name, type_name_bytes, type_scopes};
use crate::ast::var::{Scope, ScopeFilter, ScopeKind, local_has, scope_has, var_added, var_name};
use super::lexer::{all_fit, lex_token, next_kind, next_rest, next_span, next_token, ws_scan, lemma_lex_progress, lemma_ws_scan_bounds};
use super::token::{
    Keyword,
    Token,
    TokenKind,
    TokenKindView,
    TokenMatch,
    TokenSpan,
    TokenValue,
    bytes_eq,
    join_spans,
    keyword_bytes,
    keyword_to_vec,
    name_bytes,
    slice_to_vec,
    token_text,
};

verus! {

/// Whether two token kinds are the same, with the same text or value.
pub fn kind_eq(a: &TokenKind, b: &TokenKind) -> (r: bool)
    ensures
        r == (a@ == b@),
{
    match (a, b) {
        (TokenKind::Invalid(x), TokenKind::Invalid(y)) => *x == *y,
        (TokenKind::Eof, TokenKind::Eof) => true,
        (TokenKind::Identifier(x), TokenKind::Identifier(y)) => bytes_eq(x, y),
        (TokenKind::String(x), TokenKind::String(y)) => bytes_eq(x, y),
        (TokenKind::Integer(x), TokenKind::Integer(y)) => *x == *y,
        (TokenKind::Decimal(x), TokenKind::Decimal(y)) => bytes_eq(x, y),
        (TokenKind::Percentage(x), TokenKind::Percentage(y)) => bytes_eq(x, y),
        (TokenKind::Keyword(x), TokenKind::Keyword(y)) => *x == *y,
        (TokenKind::Semicolon, TokenKind::Semicolon) => true,
        (TokenKind::Colon, TokenKind::Colon) => true,
        (TokenKind::Dot, TokenKind::Dot) => true,
        (TokenKind::Comma, TokenKind::Comma) => true,
        (TokenKind::LParen, TokenKind::LParen) => true,
        (TokenKind::RParen, TokenKind::RParen) => true,
        (TokenKind::LSquareBracket, TokenKind::LSquareBracket) => true,
        (TokenKind::RSquareBracket, TokenKind::RSquareBracket) => true,
        (TokenKind::Minus, TokenKind::Minus) => true,
        (TokenKind::Plus, TokenKind::Plus) => true,
        (TokenKind::Multiply, TokenKind::Multiply) => true,
        (TokenKind::Divide, TokenKind::Divide) => true,
        (TokenKind::Caret, TokenKind::Caret) => true,
        (TokenKind::Equal, TokenKind::Equal) => true,
        (TokenKind::NotEqual, TokenKind::NotEqual) => true,
        (TokenKind::Less, TokenKind::Less) => true,
        (TokenKind::LessEqual, TokenKind::LessEqual) => true,
        (TokenKind::Greater, TokenKind::Greater) => true,
        (TokenKind::GreaterEqual, TokenKind::GreaterEqual) => true,
        (TokenKind::PercentSign, TokenKind::PercentSign) => true,
        (TokenKind::Exclamation, TokenKind::Exclamation) => true,
        (TokenKind::LeftArrow, TokenKind::LeftArrow) => true,
        (TokenKind::RightArrow, TokenKind::RightArrow) => true,
        _ => false,
    }
}

/// Whether a token kind is of the kind that a match names.
pub open spec fn kind_is(m: TokenMatch, k: TokenKindView) -> bool {
    match m {
        TokenMatch::Invalid => k is Invalid,
        TokenMatch::Identifier => k is Identifier,
        TokenMatch::String => k is String,
        TokenMatch::Integer => k is Integer,
        TokenMatch::Decimal => k is Decimal,
        TokenMatch::Percentage => k is Percentage,
        TokenMatch::Keyword => k is Keyword,
    }
}

/// The name of a kind of token.
pub open spec fn match_text(m: TokenMatch) -> Seq<u8> {
    match m {
        TokenMatch::Invalid => seq![105u8, 110u8, 118u8, 97u8, 108u8, 105u8, 100u8],
        TokenMatch::Identifier => seq![105u8, 100u8, 101u8, 110u8, 116u8, 105u8, 102u8, 105u8, 101u8, 114u8],
        TokenMatch::String => seq![115u8, 116u8, 114u8, 105u8, 110u8, 103u8],
        TokenMatch::Integer => seq![105u8, 110u8, 116u8, 101u8, 103u8, 101u8, 114u8],
        TokenMatch::Decimal => seq![100u8, 101u8, 99u8, 105u8, 109u8, 97u8, 108u8],
        TokenMatch::Percentage => seq![112u8, 101u8, 114u8, 99u8, 101u8, 110u8, 116u8, 97u8, 103u8, 101u8],
        TokenMatch::Keyword => seq![107u8, 101u8, 121u8, 119u8, 111u8, 114u8, 100u8],
    }
}

impl TokenMatch {
    /// The name of the kind of token, as bytes.
    pub fn as_bytes(&self) -> (r: Vec<u8>)
        ensures
            r@ == match_text(*self),
    {
        let r = match self {
            TokenMatch::Invalid => vec![105u8, 110u8, 118u8, 97u8, 108u8, 105u8, 100u8],
            TokenMatch::Identifier => vec![105u8, 100u8, 101u8, 110u8, 116u8, 105u8, 102u8, 105u8, 101u8, 114u8],
            TokenMatch::String => vec![115u8, 116u8, 114u8, 105u8, 110u8, 103u8],
            TokenMatch::Integer => vec![105u8, 110u8, 116u8, 101u8, 103u8, 101u8, 114u8],
            TokenMatch::Decimal => vec![100u8, 101u8, 99u8, 105u8, 109u8, 97u8, 108u8],
            TokenMatch::Percentage => vec![112u8, 101u8, 114u8, 99u8, 101u8, 110u8, 116u8, 97u8, 103u8, 101u8],
            TokenMatch::Keyword => vec![107u8, 101u8, 121u8, 119u8, 111u8, 114u8, 100u8],
        };
        assert(r@ =~= match_text(*self));
        r
    }

    /// Whether the token is of this kind.
    pub fn matches(&self, k: &TokenKind) -> (r: bool)
        ensures
            r == kind_is(*self, k@),
    {
        match (self, k) {
            (TokenMatch::Invalid, TokenKind::Invalid(_)) => true,
            (TokenMatch::Identifier, TokenKind::Identifier(_)) => true,
            (TokenMatch::String, TokenKind::String(_)) => true,
            (TokenMatch::Integer, TokenKind::Integer(_)) => true,
            (TokenMatch::Decimal, TokenKind::Decimal(_)) => true,
            (TokenMatch::Percentage, TokenKind::Percentage(_)) => true,
            (TokenMatch::Keyword, TokenKind::Keyword(_)) => true,
            _ => false,
        }
    }
}

/// What the parser looks for in the next token: a token kind, a keyword, or
/// any token of a kind.
#[derive(Debug, Copy, Clone)]
pub enum Syntax<'a> {
    Kind(TokenKind<'a>),
    Keyword(Keyword),
    Match(TokenMatch),
}

pub open spec fn syntax_matches(s: Syntax, k: TokenKindView) -> bool {
    match s {
        Syntax::Kind(t) => t@ == k,
        Syntax::Keyword(w) => k == TokenKindView::Keyword(w),
        Syntax::Match(m) => kind_is(m, k),
    }
}

/// How what is looked for is named in messages.
pub open spec fn syntax_text(s: Syntax) -> Seq<u8> {
    match s {
        Syntax::Kind(t) => token_text(t@),
        Syntax::Keyword(w) => keyword_bytes(w),
        Syntax::Match(m) => match_text(m),
    }
}

impl<'a> Syntax<'a> {
    pub fn matches(&self, k: &TokenKind) -> (r: bool)
        ensures
            r == syntax_matches(*self, k@),
    {
        match self {
            Syntax::Kind(t) => kind_eq(t, k),
            Syntax::Keyword(w) => match k {
                TokenKind::Keyword(x) => *x == *w,
                _ => false,
            },
            Syntax::Match(m) => m.matches(k),
        }
    }

    pub fn as_bytes(&self) -> (r: Vec<u8>)
        ensures
            r@ == syntax_text(*self),
    {
        match self {
            Syntax::Kind(t) => t.as_str(),
            Syntax::Keyword(w) => keyword_to_vec(*w),
            Syntax::Match(m) => m.as_bytes(),
        }
    }
}

/// A copy of a token.
pub fn clone_token<'a>(t: &Token<'a>) -> (r: Token<'a>)
    ensures
        r.kind == t.kind,
        r.span == t.span,
{
    Token { kind: t.kind, span: t.span.clone() }
}

/// A recursive-descent parser over the tokens of one source file.
pub struct Parser<'p> {
    filename: Arc<String>,
    token: Token<'p>,
    inp: &'p [u8],
}

impl<'p> Parser<'p> {
    /// The parser's invariant: the rest of the input can be lexed without
    /// the span's numbers overflowing, and its integers fit.
    pub closed spec fn wf(&self) -> bool {
        &&& self.inp@.len() <= usize::MAX / 4
        &&& self.token.span.line + self.inp@.len() <= usize::MAX
        &&& self.token.span.end + 2 * self.inp@.len() + 1 <= usize::MAX
        &&& self.token.span.end >= 1
        &&& all_fit(self.inp@)
    }

    /// The current token's kind.
    pub closed spec fn spec_token_kind(&self) -> TokenKind<'p> {
        self.token.kind
    }

    /// The current token's kind, as a plain value.
    pub open spec fn spec_kind(&self) -> TokenKindView {
        self.spec_token_kind()@
    }

    /// The current token's span.
    pub closed spec fn spec_span(&self) -> TokenSpan {
        self.token.span
    }

    /// The input after the current token.
    pub closed spec fn spec_inp(&self) -> Seq<u8> {
        self.inp@
    }

    pub closed spec fn spec_filename(&self) -> Arc<String> {
        self.filename
    }

    /// What is left to read: twice the bytes left, and one for a current
    /// token that is not the end of input.
    pub open spec fn spec_measure(&self) -> nat {
        2 * self.spec_inp().len() + if self.spec_kind() is Eof {
            0nat
        } else {
            1nat
        }
    }

    /// A parser at the start of `inp`, before its first token.
    pub fn new(filename: Arc<String>, inp: &'p [u8]) -> (r: Self)
        requires
            inp@.len() <= usize::MAX / 4,
            all_fit(inp@),
        ensures
            r.wf(),
            r.spec_kind() == TokenKindView::Invalid(0 as char),
            r.spec_inp() == inp@,
            r.spec_filename() == filename,
            r.spec_span() == (TokenSpan { filename, line: 1, end_line: 1, start: 1, end: 1 }),
    {
        let token_span = TokenSpan::new(filename.clone());
        let token = Token::new(TokenKind::Invalid(0 as char), token_span);
        Parser { filename, token, inp }
    }

    pub fn current_token(&self) -> (r: &Token<'p>)
        ensures
            r.kind@ == self.spec_kind(),
            r.span == self.spec_span(),
    {
        &self.token
    }

    /// Moves to the next token.
    pub fn advance(&mut self) -> (r: Result<(), ParseErrorKind>)
        requires
            old(self).wf(),
        ensures
            r is Ok,
            final(self).wf(),
            final(self).spec_kind() == next_kind(old(self).spec_inp()),
            final(self).spec_inp() == next_rest(old(self).spec_inp()),
            final(self).spec_span() == next_span(old(self).spec_inp(), old(self).spec_span()),
            final(self).spec_filename() == old(self).spec_filename(),
            final(self).spec_measure() <= old(self).spec_measure(),
            !(old(self).spec_kind() is Eof) ==> final(self).spec_measure() < old(self).spec_measure(),
    {
        proof {
            lemma_lex_progress(self.inp@);
            lemma_ws_scan_bounds(self.inp@, 0, 0, 0);
            let e = lex_token(self.inp@, ws_scan(self.inp@, 0, 0, 0).0).1;
            if e == 0 {
                assert(self.inp@.skip(0) =~= self.inp@);
            }
        }
        let (inp, token) = next_token(self.inp, &self.token.span);
        self.inp = inp;
        self.token = token;
        Ok(())
    }

    /// The token after the current one; nothing moves.
    pub fn peek(&self) -> (r: Result<Token<'p>, ParseErrorKind>)
        requires
            self.wf(),
        ensures
            r matches Ok(t) && t.kind@ == next_kind(self.spec_inp()) && t.span == next_span(
                self.spec_inp(),
                self.spec_span(),
            ),
    {
        let (_, token) = next_token(self.inp, &self.token.span);
        Ok(token)
    }

    /// Moves `times` tokens on.
    pub fn advance_x(&mut self, times: u8) -> (r: Result<(), ParseErrorKind>)
        requires
            old(self).wf(),
        ensures
            r is Ok,
            final(self).wf(),
            (final(self).spec_kind(), final(self).spec_inp(), final(self).spec_span()) == after_advances(
                old(self).spec_kind(),
                old(self).spec_inp(),
                old(self).spec_span(),
                times as nat,
            ),
            final(self).spec_filename() == old(self).spec_filename(),
            final(self).spec_measure() <= old(self).spec_measure(),
            times > 0 && !(old(self).spec_kind() is Eof) ==> final(self).spec_measure() < old(self).spec_measure(),
    {
        let mut i: u8 = 0;
        while i < times
            invariant
                self.wf(),
                i <= times,
                (self.spec_kind(), self.spec_inp(), self.spec_span()) == after_advances(
                    old(self).spec_kind(),
                    old(self).spec_inp(),
                    old(self).spec_span(),
                    i as nat,
                ),
                self.spec_filename() == old(self).spec_filename(),
                self.spec_measure() <= old(self).spec_measure(),
                i > 0 && !(old(self).spec_kind() is Eof) ==> self.spec_measure() < old(self).spec_measure(),
            decreases times - i,
        {
            let ghost before = *self;
            self.advance()?;
            proof {
                lemma_after_advances_step(
                    old(self).spec_kind(),
                    old(self).spec_inp(),
                    old(self).spec_span(),
                    i as nat,
                );
            }
            i = i + 1;
        }
        Ok(())
    }

    /// Moves to the next token and returns a copy of it.
    pub fn take_next(&mut self) -> (r: Result<Token<'p>, ParseErrorKind>)
        requires
            old(self).wf(),
        ensures
            final(self).wf(),
            final(self).spec_kind() == next_kind(old(self).spec_inp()),
            final(self).spec_inp() == next_rest(old(self).spec_inp()),
            final(self).spec_span() == next_span(old(self).spec_inp(), old(self).spec_span()),
            final(self).spec_filename() == old(self).spec_filename(),
            final(self).spec_measure() <= old(self).spec_measure(),
            !(old(self).spec_kind() is Eof) ==> final(self).spec_measure() < old(self).spec_measure(),
            r matches Ok(t) && t.kind@ == final(self).spec_kind() && t.span == final(self).spec_span(),
    {
        self.advance()?;
        Ok(clone_token(&self.token))
    }

    /// The current token's text, or for a token without one its name, with
    /// its span.
    pub fn string_token_value(&self) -> (r: TokenValue<Vec<u8>>)
        ensures
            name_bytes(r) == token_text(self.spec_kind()),
            r.spec_span() == self.spec_span(),
    {
        TokenValue::new(self.token.kind.as_str(), self.token.span.clone())
    }

    /// The error that `what` was looked for and the current token found.
    pub fn e_expected(&self, what: Vec<u8>) -> (r: ParseErrorKind)
        ensures
            is_expected_error(r, what@, self.spec_kind(), self.spec_span()),
    {
        ParseErrorKind::Expected(what, self.string_token_value())
    }

    /// The error that the current token was not looked for.
    pub fn e_unexpected(&self) -> (r: ParseErrorKind)
        ensures
            is_unexpected_error(r, self.spec_kind(), self.spec_span()),
    {
        ParseErrorKind::Unexpected(self.string_token_value())
    }

    /// A syntax error at the current token.
    pub fn e_syntax(&self, msg: &str) -> (r: ParseErrorKind)
        ensures
            r matches ParseErrorKind::Syntax(m, sp) && m@ == msg@ && sp == self.spec_span(),
    {
        ParseErrorKind::Syntax(<String as StringExecFns>::from_str(msg), self.token.span.clone())
    }

    /// An invalid operation at the current token.
    pub fn e_invalid(&self, msg: &'static str) -> (r: ParseErrorKind)
        ensures
            r matches ParseErrorKind::InvalidOperation(m, sp) && m == msg && sp == self.spec_span(),
    {
        ParseErrorKind::InvalidOperation(msg, self.token.span.clone())
    }

    /// Whether the current token is what `s` looks for.
    pub fn is(&self, s: Syntax) -> (r: bool)
        ensures
            r == syntax_matches(s, self.spec_kind()),
    {
        s.matches(&self.token.kind)
    }

    /// A copy of the current token if it is what `s` looks for; nothing
    /// moves.
    pub fn expect(&self, s: Syntax) -> (r: Result<Token<'p>, ParseErrorKind>)
        ensures
            syntax_matches(s, self.spec_kind()) ==> (r matches Ok(t) && t.kind@ == self.spec_kind()
                && t.span == self.spec_span()),
            !syntax_matches(s, self.spec_kind()) ==> (r matches Err(e) && is_expected_error(
                e,
                syntax_text(s),
                self.spec_kind(),
                self.spec_span(),
            )),
    {
        if s.matches(&self.token.kind) {
            Ok(clone_token(&self.token))
        } else {
            Err(self.e_expected(s.as_bytes()))
        }
    }

    /// Moves past the current token if it is what `s` looks for.
    pub fn consume(&mut self, s: Syntax) -> (r: Result<(), ParseErrorKind>)
        requires
            old(self).wf(),
        ensures
            final(self).wf(),
            syntax_matches(s, old(self).spec_kind()) ==> r is Ok && stepped(*old(self), *final(self)),
            !syntax_matches(s, old(self).spec_kind()) ==> *final(self) == *old(self) && (r matches Err(
                e,
            ) && is_expected_error(e, syntax_text(s), old(self).spec_kind(), old(self).spec_span())),
            final(self).spec_measure() <= old(self).spec_measure(),
    {
        if s.matches(&self.token.kind) {
            self.advance()
        } else {
            Err(self.e_expected(s.as_bytes()))
        }
    }

    /// Moves past the current token if it is what `s` looks for, and says
    /// whether it did.
    pub fn opt_consume(&mut self, s: Syntax) -> (r: Result<bool, ParseErrorKind>)
        requires
            old(self).wf(),
        ensures
            final(self).wf(),
            r == Ok::<bool, ParseErrorKind>(syntax_matches(s, old(self).spec_kind())),
            syntax_matches(s, old(self).spec_kind()) ==> stepped(*old(self), *final(self)),
            !syntax_matches(s, old(self).spec_kind()) ==> *final(self) == *old(self),
            final(self).spec_measure() <= old(self).spec_measure(),
    {
        match optional(self.consume(s)) {
            Ok(Some(())) => Ok(true),
            Ok(None) => Ok(false),
            Err(e) => Err(e),
        }
    }

    /// Moves past the current token if it is what `s` looks for, and
    /// returns a copy of it.
    pub fn take(&mut self, s: Syntax) -> (r: Result<Token<'p>, ParseErrorKind>)
        requires
            old(self).wf(),
        ensures
            final(self).wf(),
            syntax_matches(s, old(self).spec_kind()) ==> stepped(*old(self), *final(self)) && (r matches Ok(t)
                && t.kind@ == old(self).spec_kind() && t.span == old(self).spec_span()),
            !syntax_matches(s, old(self).spec_kind()) ==> *final(self) == *old(self) && (r matches Err(
                e,
            ) && is_expected_error(e, syntax_text(s), old(self).spec_kind(), old(self).spec_span())),
            final(self).spec_measure() <= old(self).spec_measure(),
    {
        if s.matches(&self.token.kind) {
            let token = clone_token(&self.token);
            self.advance()?;
            Ok(token)
        } else {
            Err(self.e_expected(s.as_bytes()))
        }
    }
}

/// The parser `new` is `old` moved one token on.
pub open spec fn stepped(old: Parser, new: Parser) -> bool {
    &&& new.spec_kind() == next_kind(old.spec_inp())
    &&& new.spec_inp() == next_rest(old.spec_inp())
    &&& new.spec_span() == next_span(old.spec_inp(), old.spec_span())
    &&& new.spec_filename() == old.spec_filename()
    &&& !(old.spec_kind() is Eof) ==> new.spec_measure() < old.spec_measure()
}

/// The current token, the rest of the input and the span after `n` more
/// tokens are read.
pub open spec fn after_advances(k: TokenKindView, inp: Seq<u8>, span: TokenSpan, n: nat) -> (
    TokenKindView,
    Seq<u8>,
    TokenSpan,
)
    decreases n,
{
    if n == 0 {
        (k, inp, span)
    } else {
        let (k1, inp1, span1) = after_advances(k, inp, span, (n - 1) as nat);
        (next_kind(inp1), next_rest(inp1), next_span(inp1, span1))
    }
}

proof fn lemma_after_advances_step(k: TokenKindView, inp: Seq<u8>, span: TokenSpan, n: nat)
    ensures
        ({
            let (k1, inp1, span1) = after_advances(k, inp, span, n);
            after_advances(k, inp, span, n + 1) == (next_kind(inp1), next_rest(inp1), next_span(inp1, span1))
        }),
{
}

/// Whether `e` says that `what` was looked for and the token of that kind
/// and span found.
pub open spec fn is_expected_error(e: ParseErrorKind, what: Seq<u8>, k: TokenKindView, span: TokenSpan) -> bool {
    e matches ParseErrorKind::Expected(w, found) && w@ == what && name_bytes(found) == token_text(k)
        && found.spec_span() == span
}

/// Whether `e` says that the token of that kind and span was not looked for.
pub open spec fn is_unexpected_error(e: ParseErrorKind, k: TokenKindView, span: TokenSpan) -> bool {
    e matches ParseErrorKind::Unexpected(found) && name_bytes(found) == token_text(k) && found.spec_span()
        == span
}

/// Whether `e` is the expression that a single token of kind `k` at `span`
/// reads as, in the scope `scope` of kind `skind`: a name is a variable of
/// that scope, and a constant is a literal of its primitive type.
pub open spec fn primary_expr_for(k: TokenKindView, span: TokenSpan, scope: usize, skind: ScopeKind, e: Expr) -> bool {
    match k {
        TokenKindView::Identifier(s) => e matches Expr::Var(v) && name_bytes(v.name) == s
            && v.name.spec_span() == span && v.scope_filter == (ScopeFilter { scope, kind: skind })
            && v.var is None,
        TokenKindView::Keyword(Keyword::Amount) => e matches Expr::Var(v) && name_bytes(v.name)
            == keyword_bytes(Keyword::Amount) && v.name.spec_span() == span && v.scope_filter == (
        ScopeFilter { scope, kind: skind }) && v.var is None,
        TokenKindView::Decimal(d) => e matches Expr::Literal(l) && l.ty == primitive_slot(
            PrimitiveType::Decimal,
        ) && (l.literal matches Literal::Decimal(tv) && tv.spec_value().digits@ == d
            && !tv.spec_value().percent && tv.spec_span() == span),
        TokenKindView::Percentage(d) => e matches Expr::Literal(l) && l.ty == primitive_slot(
            PrimitiveType::Decimal,
        ) && (l.literal matches Literal::Decimal(tv) && tv.spec_value().digits@ == d
            && tv.spec_value().percent && tv.spec_span() == span),
        TokenKindView::Integer(i) => e matches Expr::Literal(l) && l.ty == primitive_slot(
            PrimitiveType::Integer,
        ) && (l.literal matches Literal::Integer(tv) && tv.spec_value() == i && tv.spec_span() == span),
        TokenKindView::String(s) => e matches Expr::Literal(l) && l.ty == primitive_slot(
            PrimitiveType::Text,
        ) && (l.literal matches Literal::Text(tv) && name_bytes(tv) == s && tv.spec_span() == span),
        TokenKindView::Keyword(Keyword::No) => e matches Expr::Literal(l) && l.ty == primitive_slot(
            PrimitiveType::Option,
        ) && (l.literal matches Literal::Option(tv) && tv.spec_value() == false && tv.spec_span() == span),
        TokenKindView::Keyword(Keyword::Yes) => e matches Expr::Literal(l) && l.ty == primitive_slot(
            PrimitiveType::Option,
        ) && (l.literal matches Literal::Option(tv) && tv.spec_value() == true && tv.spec_span() == span),
        _ => false,
    }
}

/// Whether a token of kind `k` starts a primary expression of one token.
pub open spec fn is_single_primary(k: TokenKindView) -> bool {
    ||| k is Identifier
    ||| k == TokenKindView::Keyword(Keyword::Amount)
    ||| k is Decimal
    ||| k is Percentage
    ||| k is Integer
    ||| k is String
    ||| k == TokenKindView::Keyword(Keyword::No)
    ||| k == TokenKindView::Keyword(Keyword::Yes)
}

/// The source of a decimal literal read from a token: its digits, and
/// whether it is a percentage; an integer's digits are written out.
pub open spec fn decimal_source_of(k: TokenKindView) -> Option<(Seq<u8>, bool)> {
    match k {
        TokenKindView::Decimal(d) => Some((d, false)),
        TokenKindView::Percentage(d) => Some((d, true)),
        TokenKindView::Integer(i) => Some((signed_decimal_text(i), false)),
        _ => None,
    }
}

/// The decimal digits of an integer, after a minus sign when it is negative.
pub open spec fn signed_decimal_text(i: int) -> Seq<u8> {
    if i < 0 {
        seq![45u8] + decimal_text((-i) as nat)
    } else {
        decimal_text(i as nat)
    }
}

/// The digits of `i`, after a minus sign when it is negative.
fn signed_decimal_bytes(i: i64) -> (r: Vec<u8>)
    ensures
        r@ == signed_decimal_text(i as int),
{
    if i < 0 {
        let magnitude: u64 = if i == i64::MIN {
            9223372036854775808u64
        } else {
            (-i) as u64
        };
        let mut r = vec![45u8];
        let d = decimal_bytes(magnitude);
        let mut k: usize = 0;
        while k < d.len()
            invariant
                k <= d@.len(),
                r@ == seq![45u8] + d@.take(k as int),
            decreases d@.len() - k,
        {
            r.push(d[k]);
            k = k + 1;
            assert(r@ =~= seq![45u8] + d@.take(k as int));
        }
        assert(d@.take(d@.len() as int) =~= d@);
        r
    } else {
        decimal_bytes(i as u64)
    }
}

impl<'p> Parser<'p> {
    /// The current integer with its span.
    pub fn int_token_value(&self) -> (r: Option<TokenValue<i64>>)
        ensures
            match self.spec_kind() {
                TokenKindView::Integer(i) => r matches Some(tv) && tv.spec_value() == i && tv.spec_span()
                    == self.spec_span(),
                _ => r is None,
            },
    {
        match self.token.kind {
            TokenKind::Integer(i) => Some(TokenValue::new(i, self.token.span.clone())),
            _ => None,
        }
    }

    /// The current number as the source of a decimal, with its span.
    pub fn float_token_value(&self) -> (r: Option<TokenValue<DecimalSource>>)
        ensures
            match decimal_source_of(self.spec_kind()) {
                Some((d, pct)) => r matches Some(tv) && tv.spec_value().digits@ == d
                    && tv.spec_value().percent == pct && tv.spec_span() == self.spec_span(),
                None => r is None,
            },
    {
        match self.token.kind {
            TokenKind::Decimal(d) => Some(
                TokenValue::new(DecimalSource { digits: slice_to_vec(d), percent: false }, self.token.span.clone()),
            ),
            TokenKind::Percentage(p) => Some(
                TokenValue::new(DecimalSource { digits: slice_to_vec(p), percent: true }, self.token.span.clone()),
            ),
            TokenKind::Integer(i) => Some(
                TokenValue::new(DecimalSource { digits: signed_decimal_bytes(i), percent: false }, self.token.span.clone()),
            ),
            _ => None,
        }
    }

    /// The current token as a prefix operator, with its span.
    pub fn prefix_token_value(&self) -> (r: Option<TokenValue<PrefixOperator>>)
        ensures
            match prefix_of(self.spec_token_kind()) {
                Some(op) => r matches Some(tv) && tv.spec_value() == op && tv.spec_span() == self.spec_span(),
                None => r is None,
            },
    {
        let oper: Result<PrefixOperator, ()> = PrefixOperator::try_from(self.token.kind);
        match oper {
            Ok(oper) => Some(TokenValue::new(oper, self.token.span.clone())),
            Err(()) => None,
        }
    }

    /// The current token as a binary operator, with its span.
    pub fn binary_token_value(&self) -> (r: Option<TokenValue<BinaryOperator>>)
        ensures
            match binary_of(self.spec_token_kind()) {
                Some(op) => r matches Some(tv) && tv.spec_value() == op && tv.spec_span() == self.spec_span(),
                None => r is None,
            },
    {
        let oper: Result<BinaryOperator, ()> = BinaryOperator::try_from(self.token.kind);
        match oper {
            Ok(oper) => Some(TokenValue::new(oper, self.token.span.clone())),
            Err(()) => None,
        }
    }

    /// The current token as a postfix list operator, with its span.
    pub fn postfix_token_value(&self) -> (r: Option<TokenValue<PostfixListOperator>>)
        ensures
            match postfix_of(self.spec_token_kind()) {
                Some(op) => r matches Some(tv) && tv.spec_value() == op && tv.spec_span() == self.spec_span(),
                None => r is None,
            },
    {
        let oper: Result<PostfixListOperator, ()> = PostfixListOperator::try_from(self.token.kind);
        match oper {
            Ok(oper) => Some(TokenValue::new(oper, self.token.span.clone())),
            Err(()) => None,
        }
    }
}

/// Whether a token ends an expression read at precedence `q`: it is no
/// binary operator of precedence `q` or above, and no call or index unless
/// `q` is above theirs.
pub open spec fn stops_before(k: TokenKind, q: int) -> bool {
    &&& (binary_of(k) matches Some(op) ==> binary_precedence(op) < q)
    &&& (postfix_of(k) is Some ==> 7 < q)
}

/// What `parse_primary_expr` makes of `localized` followed by a token of
/// kind `k1` at `span1`, the `localized` keyword standing at `span0`.
pub open spec fn localized_expr_for(k1: TokenKindView, span0: TokenSpan, span1: TokenSpan, e: Expr) -> bool {
    k1 matches TokenKindView::String(s) && (e matches Expr::Literal(l) && l.ty == primitive_slot(
        PrimitiveType::LocalizedText,
    ) && (l.literal matches Literal::LocalizedText(tv) && name_bytes(tv) == s && tv.spec_span()
        == join_spans(span0, span1)))
}

/// Where a parser stands in a token stream: the current token's kind, the
/// input after it, and the current token's span.
pub open spec fn state_of(p: Parser) -> (TokenKindView, Seq<u8>, TokenSpan) {
    (p.spec_kind(), p.spec_inp(), p.spec_span())
}

/// The place one token further on.
pub open spec fn step_state(st: (TokenKindView, Seq<u8>, TokenSpan)) -> (TokenKindView, Seq<u8>, TokenSpan) {
    (next_kind(st.1), next_rest(st.1), next_span(st.1, st.2))
}

/// What is left to read from a place, as `Parser::spec_measure` counts it.
pub open spec fn state_measure(st: (TokenKindView, Seq<u8>, TokenSpan)) -> nat {
    2 * st.1.len() + if st.0 is Eof {
        0nat
    } else {
        1nat
    }
}

/// The prefix operator that a token of kind `k` starts, if any.
pub open spec fn prefix_of_kind(k: TokenKindView) -> Option<PrefixOperator> {
    match k {
        TokenKindView::LParen => Some(PrefixOperator::Parens),
        TokenKindView::Minus => Some(PrefixOperator::Neg),
        TokenKindView::Exclamation => Some(PrefixOperator::Not),
        TokenKindView::Dot => Some(PrefixOperator::Dot),
        _ => None,
    }
}

/// The binary operator that a token of kind `k` stands for, if any.
pub open spec fn binary_of_kind(k: TokenKindView) -> Option<BinaryOperator> {
    match k {
        TokenKindView::Dot => Some(BinaryOperator::Dot),
        TokenKindView::Multiply => Some(BinaryOperator::Mul),
        TokenKindView::Divide => Some(BinaryOperator::Div),
        TokenKindView::PercentSign => Some(BinaryOperator::Mod),
        TokenKindView::Caret => Some(BinaryOperator::Pow),
        TokenKindView::Plus => Some(BinaryOperator::Add),
        TokenKindView::Minus => Some(BinaryOperator::Sub),
        TokenKindView::Equal => Some(BinaryOperator::Eq),
        TokenKindView::NotEqual => Some(BinaryOperator::Ne),
        TokenKindView::Less => Some(BinaryOperator::Lt),
        TokenKindView::LessEqual => Some(BinaryOperator::Le),
        TokenKindView::Greater => Some(BinaryOperator::Gt),
        TokenKindView::GreaterEqual => Some(BinaryOperator::Ge),
        TokenKindView::Keyword(Keyword::And) => Some(BinaryOperator::And),
        TokenKindView::Keyword(Keyword::Or) => Some(BinaryOperator::Or),
        _ => None,
    }
}

/// The postfix list operator that a token of kind `k` opens, if any.
pub open spec fn postfix_of_kind(k: TokenKindView) -> Option<PostfixListOperator> {
    match k {
        TokenKindView::LParen => Some(PostfixListOperator::Call),
        TokenKindView::LSquareBracket => Some(PostfixListOperator::Idx),
        _ => None,
    }
}

proof fn lemma_operators_of_kind(t: TokenKind)
    ensures
        prefix_of(t) == prefix_of_kind(t@),
        binary_of(t) == binary_of_kind(t@),
        postfix_of(t) == postfix_of_kind(t@),
{
}

/// The tree that an expression's tokens are read as, with the kind and span
/// of each token that the tree keeps, in the order they stand in the source.
pub enum ExprShape {
    /// A name or a constant of one token.
    Primary(TokenKindView, TokenSpan),
    /// `localized` at the first span and its string at the second.
    Localized(TokenKindView, TokenSpan, TokenSpan),
    Prefix(PrefixOperator, TokenSpan, Box<ExprShape>),
    Binary(BinaryOperator, TokenSpan, Box<ExprShape>, Box<ExprShape>),
    PostfixList(PostfixListOperator, TokenSpan, Box<ExprShape>, Seq<ExprShape>),
}

/// Whether `e` is the expression of shape `s`, its names read in the scope
/// `scope` of kind `skind`.
pub open spec fn expr_is(e: Expr, s: ExprShape, scope: usize, skind: ScopeKind) -> bool
    decreases s,
{
    match s {
        ExprShape::Primary(k, span) => primary_expr_for(k, span, scope, skind, e),
        ExprShape::Localized(k1, span0, span1) => localized_expr_for(k1, span0, span1, e),
        ExprShape::Prefix(op, span, sub) => e matches Expr::Prefix(p) && p.operator.spec_value() == op
            && p.operator.spec_span() == span && expr_is(*p.subexpr, *sub, scope, skind),
        ExprShape::Binary(op, span, left, right) => e matches Expr::Binary(b) && b.operator.spec_value()
            == op && b.operator.spec_span() == span && expr_is(*b.left, *left, scope, skind) && expr_is(
            *b.right,
            *right,
            scope,
            skind,
        ),
        ExprShape::PostfixList(op, span, left, items) => e matches Expr::PostfixList(p)
            && p.operator.spec_value() == op && p.operator.spec_span() == span && expr_is(
            *p.left,
            *left,
            scope,
            skind,
        ) && exprs_are(p.right@, items, scope, skind),
    }
}

/// Whether each of `es` is the expression of the shape at its place in `ss`.
pub open spec fn exprs_are(es: Seq<Expr>, ss: Seq<ExprShape>, scope: usize, skind: ScopeKind) -> bool
    decreases ss,
{
    &&& es.len() == ss.len()
    &&& ss.len() > 0 ==> exprs_are(es.drop_last(), ss.drop_last(), scope, skind) && expr_is(
        es.last(),
        ss.last(),
        scope,
        skind,
    )
}

/// What a primary expression is read as from `st`, and where reading stops;
/// `None` where none starts there.
pub open spec fn read_primary(st: (TokenKindView, Seq<u8>, TokenSpan)) -> (
    Option<ExprShape>,
    (TokenKindView, Seq<u8>, TokenSpan),
) {
    if is_single_primary(st.0) {
        (Some(ExprShape::Primary(st.0, st.2)), step_state(st))
    } else if st.0 == TokenKindView::Keyword(Keyword::Localized) {
        let st1 = step_state(st);
        if st1.0 is String {
            (Some(ExprShape::Localized(st1.0, st.2, st1.2)), step_state(st1))
        } else {
            (None, st1)
        }
    } else {
        (None, st)
    }
}

/// What an expression whose operators bind at least as tightly as `prec` is
/// read as from `st`, and where reading stops; `None` where the tokens form
/// none. A prefix operator takes the expression read at its own precedence,
/// and `(` takes a `)` after it.
pub open spec fn read_prec(st: (TokenKindView, Seq<u8>, TokenSpan), prec: int) -> (
    Option<ExprShape>,
    (TokenKindView, Seq<u8>, TokenSpan),
)
    decreases state_measure(st), 1nat,
{
    let (first, st1) = match prefix_of_kind(st.0) {
        Some(op) => {
            let st0 = step_state(st);
            if state_measure(st0) < state_measure(st) {
                let (sub, st2) = read_prec(st0, prefix_precedence(op) as int);
                match sub {
                    None => (None, st2),
                    Some(sub) => if op != PrefixOperator::Parens {
                        (Some(ExprShape::Prefix(op, st.2, Box::new(sub))), st2)
                    } else if st2.0 == TokenKindView::RParen {
                        (Some(ExprShape::Prefix(op, st.2, Box::new(sub))), step_state(st2))
                    } else {
                        (None, st2)
                    },
                }
            } else {
                (None, st0)
            }
        },
        None => read_primary(st),
    };
    match first {
        None => (None, st1),
        Some(acc) => if state_measure(st1) < state_measure(st) {
            read_rest(acc, st1, prec)
        } else {
            (None, st1)
        },
    }
}

/// What `acc` grows into from `st` as calls, indexes and binary operators of
/// precedence `prec` or above follow it, and where reading stops.
pub open spec fn read_rest(acc: ExprShape, st: (TokenKindView, Seq<u8>, TokenSpan), prec: int) -> (
    Option<ExprShape>,
    (TokenKindView, Seq<u8>, TokenSpan),
)
    decreases state_measure(st), 2nat,
{
    if postfix_of_kind(st.0) is Some {
        let op = postfix_of_kind(st.0)->0;
        if 7 < prec {
            (Some(acc), st)
        } else {
            let st1 = step_state(st);
            if state_measure(st1) < state_measure(st) {
                let (items, st2) = read_list(st1);
                let close = if op == PostfixListOperator::Call {
                    TokenKindView::RParen
                } else {
                    TokenKindView::RSquareBracket
                };
                if st2.0 == close {
                    let st3 = step_state(st2);
                    if state_measure(st3) < state_measure(st) {
                        read_rest(ExprShape::PostfixList(op, st.2, Box::new(acc), items), st3, prec)
                    } else {
                        (None, st3)
                    }
                } else {
                    (None, st2)
                }
            } else {
                (None, st1)
            }
        }
    } else if binary_of_kind(st.0) is Some {
        let op = binary_of_kind(st.0)->0;
        let bp = binary_precedence(op) as int;
        if bp < prec {
            (Some(acc), st)
        } else {
            let next = if op == BinaryOperator::Pow {
                bp
            } else {
                bp + 1
            };
            let st1 = step_state(st);
            if state_measure(st1) < state_measure(st) {
                let (right, st2) = read_prec(st1, next);
                match right {
                    None => (None, st2),
                    Some(right) => if state_measure(st2) < state_measure(st) {
                        read_rest(ExprShape::Binary(op, st.2, Box::new(acc), Box::new(right)), st2, prec)
                    } else {
                        (None, st2)
                    },
                }
            } else {
                (None, st1)
            }
        }
    } else {
        (Some(acc), st)
    }
}

/// The expressions read from `st` as a list separated by commas, and where
/// reading stops: the list ends before the first place where no expression
/// can be read, or after an expression that no comma follows.
pub open spec fn read_list(st: (TokenKindView, Seq<u8>, TokenSpan)) -> (
    Seq<ExprShape>,
    (TokenKindView, Seq<u8>, TokenSpan),
)
    decreases state_measure(st), 3nat,
{
    let (item, st1) = read_prec(st, 0);
    match item {
        None => (Seq::empty(), st1),
        Some(x) => if st1.0 == TokenKindView::Comma {
            let st2 = step_state(st1);
            if state_measure(st2) < state_measure(st) {
                let (rest, st3) = read_list(st2);
                (seq![x] + rest, st3)
            } else {
                (seq![x], st2)
            }
        } else {
            (seq![x], st1)
        },
    }
}

impl<'p> Parser<'p> {
    /// primary = ident | amount | literal
    pub fn parse_primary_expr(&mut self, scope: usize, ast: &Ast) -> (r: Result<Expr, ParseErrorKind>)
        requires
            old(self).wf(),
            ast.wf(),
            scope < ast.spec_scopes().len(),
        ensures
            final(self).wf(),
            final(self).spec_filename() == old(self).spec_filename(),
            final(self).spec_measure() <= old(self).spec_measure(),
            r is Ok ==> final(self).spec_measure() < old(self).spec_measure(),
            r matches Ok(e) ==> expr_has_span(e) && expr_scopes_in(e, ast.spec_scopes().len()),
            is_single_primary(old(self).spec_kind()) ==> stepped(*old(self), *final(self)) && (r matches Ok(
                e,
            ) && primary_expr_for(
                old(self).spec_kind(),
                old(self).spec_span(),
                scope,
                ast.spec_scopes()[scope as int].kind,
                e,
            )),
            old(self).spec_kind() == TokenKindView::Keyword(Keyword::Localized) ==> {
                let k1 = next_kind(old(self).spec_inp());
                let span1 = next_span(old(self).spec_inp(), old(self).spec_span());
                if k1 is String {
                    r matches Ok(e) && localized_expr_for(k1, old(self).spec_span(), span1, e)
                } else {
                    r matches Err(e) && is_expected_error(e, match_text(TokenMatch::String), k1, span1)
                }
            },
            !is_single_primary(old(self).spec_kind()) && old(self).spec_kind() != TokenKindView::Keyword(
                Keyword::Localized,
            ) ==> *final(self) == *old(self) && (r matches Err(e) && is_unexpected_error(
                e,
                old(self).spec_kind(),
                old(self).spec_span(),
            )),
            state_of(*final(self)) == read_primary(state_of(*old(self))).1,
            (r is Ok) == (read_primary(state_of(*old(self))).0 is Some),
            r matches Ok(e) ==> expr_is(
                e,
                read_primary(state_of(*old(self))).0->0,
                scope,
                ast.spec_scopes()[scope as int].kind,
            ),
            r matches Err(e) ==> is_mismatch(e),
    {
        let kind = self.token.kind;
        if TokenMatch::Identifier.matches(&kind) || Syntax::Keyword(Keyword::Amount).matches(&kind) {
            let tv = self.string_token_value();
            self.advance()?;
            let filter = ScopeFilter::new(scope, ast.scopes().kind(scope));
            Ok(Expr::Var(ExprVar::new(tv, filter)))
        } else if TokenMatch::Decimal.matches(&kind) || TokenMatch::Percentage.matches(&kind) {
            let tv = self.float_token_value().unwrap();
            self.advance()?;
            Ok(Expr::Literal(ExprLiteral::new(Literal::Decimal(tv), ast.primitive().decimal())))
        } else if TokenMatch::Integer.matches(&kind) {
            let tv = self.int_token_value().unwrap();
            self.advance()?;
            match self.parse_time_span(&tv) {
                Some(ts) => Ok(Expr::Literal(ExprLiteral::new(Literal::TimeSpan(ts), ast.primitive().time_span()))),
                None => Ok(Expr::Literal(ExprLiteral::new(Literal::Integer(tv), ast.primitive().integer()))),
            }
        } else if TokenMatch::String.matches(&kind) {
            let tv = self.string_token_value();
            self.advance()?;
            Ok(Expr::Literal(ExprLiteral::new(Literal::Text(tv), ast.primitive().text())))
        } else if Syntax::Keyword(Keyword::Localized).matches(&kind) {
            let loc_span = self.token.span.clone();
            self.advance()?;
            let tok = self.take(Syntax::Match(TokenMatch::String))?;
            let s = match tok.kind {
                TokenKind::String(s) => slice_to_vec(s),
                _ => vstd::pervasive::unreached(),
            };
            let tv = TokenValue::new(s, loc_span.from_to(&tok.span));
            Ok(Expr::Literal(ExprLiteral::new(Literal::LocalizedText(tv), ast.primitive().localized_text())))
        } else if Syntax::Keyword(Keyword::No).matches(&kind) {
            let tv = TokenValue::new(false, self.token.span.clone());
            self.advance()?;
            Ok(Expr::Literal(ExprLiteral::new(Literal::Option(tv), ast.primitive().option())))
        } else if Syntax::Keyword(Keyword::Yes).matches(&kind) {
            let tv = TokenValue::new(true, self.token.span.clone());
            self.advance()?;
            Ok(Expr::Literal(ExprLiteral::new(Literal::Option(tv), ast.primitive().option())))
        } else {
            Err(self.e_unexpected())
        }
    }

    /// Time span literals, such as `3 hours`, are not read yet: an integer
    /// stays an integer.
    fn parse_time_span(&mut self, _amount: &TokenValue<i64>) -> (r: Option<Vec<TimeSpanPart>>)
        ensures
            r is None,
            *final(self) == *old(self),
    {
        None
    }

    pub fn parse_expression(&mut self, scope: usize, ast: &Ast) -> (r: Result<Expr, ParseErrorKind>)
        requires
            old(self).wf(),
            ast.wf(),
            scope < ast.spec_scopes().len(),
        ensures
            final(self).wf(),
            final(self).spec_filename() == old(self).spec_filename(),
            final(self).spec_measure() <= old(self).spec_measure(),
            r is Ok ==> final(self).spec_measure() < old(self).spec_measure(),
            r matches Ok(e) ==> expr_has_span(e) && expr_scopes_in(e, ast.spec_scopes().len()),
            r matches Ok(e) ==> respects_precedence(e),
            state_of(*final(self)) == read_prec(state_of(*old(self)), 0).1,
            (r is Ok) == (read_prec(state_of(*old(self)), 0).0 is Some),
            r matches Ok(e) ==> expr_is(
                e,
                read_prec(state_of(*old(self)), 0).0->0,
                scope,
                ast.spec_scopes()[scope as int].kind,
            ),
            r matches Err(e) ==> is_mismatch(e),
        decreases old(self).spec_measure(), 2nat,
    {
        self.parse_precedence_expr(0, scope, ast)
    }

    /// An expression whose operators bind at least as tightly as
    /// `precedence`: a prefix operator and its operand, or a primary
    /// expression, then calls, indexes and binary operators in turn.
    pub fn parse_precedence_expr(&mut self, precedence: u8, scope: usize, ast: &Ast) -> (r: Result<
        Expr,
        ParseErrorKind,
    >)
        requires
            old(self).wf(),
            ast.wf(),
            scope < ast.spec_scopes().len(),
        ensures
            final(self).wf(),
            final(self).spec_filename() == old(self).spec_filename(),
            final(self).spec_measure() <= old(self).spec_measure(),
            r is Ok ==> final(self).spec_measure() < old(self).spec_measure(),
            r matches Ok(e) ==> expr_has_span(e) && expr_scopes_in(e, ast.spec_scopes().len()),
            r matches Ok(e) ==> respects_precedence(e) && top_binds(e, precedence as int),
            r is Ok ==> stops_before(final(self).spec_token_kind(), precedence as int),
            state_of(*final(self)) == read_prec(state_of(*old(self)), precedence as int).1,
            (r is Ok) == (read_prec(state_of(*old(self)), precedence as int).0 is Some),
            r matches Ok(e) ==> expr_is(
                e,
                read_prec(state_of(*old(self)), precedence as int).0->0,
                scope,
                ast.spec_scopes()[scope as int].kind,
            ),
            r matches Err(e) ==> is_mismatch(e),
        decreases old(self).spec_measure(), 1nat,
    {
        let ghost st0 = state_of(*self);
        let ghost skind = ast.spec_scopes()[scope as int].kind;
        let ghost target = read_prec(st0, precedence as int);
        proof {
            lemma_operators_of_kind(self.spec_token_kind());
        }
        let ghost mut acc: ExprShape = ExprShape::Primary(TokenKindView::Eof, st0.2);
        let mut expr: Expr;
        if let Some(prefix) = self.prefix_token_value() {
            let is_paren = *prefix.value() == PrefixOperator::Parens;
            self.advance()?;
            let prec = prefix.value().precedence();
            let ghost st_sub = state_of(*self);
            let sub = self.parse_precedence_expr(prec, scope, ast)?;
            proof {
                acc = ExprShape::Prefix(prefix.spec_value(), st0.2, Box::new(read_prec(st_sub, prec as int).0->0));
            }
            expr = Expr::Prefix(PrefixExpr::new(prefix, sub));
            if is_paren {
                self.consume(Syntax::Kind(TokenKind::RParen))?;
            }
        } else {
            expr = self.parse_primary_expr(scope, ast)?;
            proof {
                acc = read_primary(st0).0->0;
            }
        }
        assert(target == read_rest(acc, state_of(*self), precedence as int));
        loop
            invariant
                self.wf(),
                ast.wf(),
                scope < ast.spec_scopes().len(),
                skind == ast.spec_scopes()[scope as int].kind,
                self.spec_filename() == old(self).spec_filename(),
                self.spec_measure() < old(self).spec_measure(),
                expr_has_span(expr),
                expr_scopes_in(expr, ast.spec_scopes().len()),
                respects_precedence(expr),
                top_binds(expr, precedence as int),
                binary_of(self.spec_token_kind()) matches Some(op) ==> (binary_precedence(op) >= precedence
                    ==> binary_precedence(op) < bind_limit(expr)),
                postfix_of(self.spec_token_kind()) is Some && 7 >= precedence ==> 7 < bind_limit(expr),
                expr_is(expr, acc, scope, skind),
                target == read_rest(acc, state_of(*self), precedence as int),
                target == read_prec(state_of(*old(self)), precedence as int),
            ensures
                stops_before(self.spec_token_kind(), precedence as int),
                expr_is(expr, acc, scope, skind),
                target == (Some(acc), state_of(*self)),
                target == read_prec(state_of(*old(self)), precedence as int),
            decreases self.spec_measure(),
        {
            let ghost st = state_of(*self);
            proof {
                lemma_operators_of_kind(self.spec_token_kind());
            }
            if let Some(postfix) = self.postfix_token_value() {
                if POSTFIX_PRECEDENCE < precedence {
                    break;
                }
                let close = match *postfix.value() {
                    PostfixListOperator::Call => TokenKind::RParen,
                    PostfixListOperator::Idx => TokenKind::RSquareBracket,
                };
                self.advance()?;
                let ghost st_list = state_of(*self);
                let list = self.parse_expr_list(scope, ast)?;
                proof {
                    acc = ExprShape::PostfixList(postfix.spec_value(), st.2, Box::new(acc), read_list(st_list).0);
                }
                expr = Expr::PostfixList(PostfixListExpr::new(postfix, expr, list));
                self.consume(Syntax::Kind(close))?;
            } else if let Some(binary) = self.binary_token_value() {
                let binary_precedence = binary.value().precedence();
                if binary_precedence < precedence {
                    break;
                }
                let next_precedence = if binary.value().right_recursive() {
                    binary_precedence
                } else {
                    binary_precedence + 1
                };
                self.advance()?;
                let ghost st_right = state_of(*self);
                let right = self.parse_precedence_expr(next_precedence, scope, ast)?;
                proof {
                    acc = ExprShape::Binary(
                        binary.spec_value(),
                        st.2,
                        Box::new(acc),
                        Box::new(read_prec(st_right, next_precedence as int).0->0),
                    );
                }
                expr = Expr::Binary(BinaryExpr::new(binary, expr, right));
            } else {
                break;
            }
        }
        Ok(expr)
    }

    /// Expressions separated by commas, as many as can be read.
    pub fn parse_expr_list(&mut self, scope: usize, ast: &Ast) -> (r: Result<Vec<Expr>, ParseErrorKind>)
        requires
            old(self).wf(),
            ast.wf(),
            scope < ast.spec_scopes().len(),
        ensures
            final(self).wf(),
            final(self).spec_filename() == old(self).spec_filename(),
            final(self).spec_measure() <= old(self).spec_measure(),
            r is Ok,
            r matches Ok(list) ==> exprs_scopes_in(list@, ast.spec_scopes().len()),
            r matches Ok(list) ==> all_respect_precedence(list@),
            state_of(*final(self)) == read_list(state_of(*old(self))).1,
            r matches Ok(list) ==> exprs_are(
                list@,
                read_list(state_of(*old(self))).0,
                scope,
                ast.spec_scopes()[scope as int].kind,
            ),
        decreases old(self).spec_measure(), 3nat,
    {
        let ghost skind = ast.spec_scopes()[scope as int].kind;
        let ghost mut shapes: Seq<ExprShape> = Seq::empty();
        let mut list: Vec<Expr> = Vec::new();
        loop
            invariant_except_break
                read_list(state_of(*old(self))) == (shapes + read_list(state_of(*self)).0, read_list(
                    state_of(*self),
                ).1),
            invariant
                self.wf(),
                ast.wf(),
                scope < ast.spec_scopes().len(),
                skind == ast.spec_scopes()[scope as int].kind,
                self.spec_filename() == old(self).spec_filename(),
                self.spec_measure() <= old(self).spec_measure(),
                exprs_scopes_in(list@, ast.spec_scopes().len()),
                all_respect_precedence(list@),
                exprs_are(list@, shapes, scope, skind),
            ensures
                exprs_are(list@, shapes, scope, skind),
                read_list(state_of(*old(self))) == (shapes, state_of(*self)),
            decreases self.spec_measure(),
        {
            let ghost st = state_of(*self);
            let item = match optional(self.parse_expression(scope, ast))? {
                Some(item) => item,
                None => {
                    assert(read_list(st) == (Seq::<ExprShape>::empty(), state_of(*self)));
                    assert(shapes + Seq::<ExprShape>::empty() =~= shapes);
                    break;
                },
            };
            let ghost x = read_prec(st, 0).0->0;
            let ghost st1 = state_of(*self);
            let ghost before = list@;
            list.push(item);
            assert(list@.drop_last() =~= before);
            proof {
                assert((shapes.push(x)).drop_last() =~= shapes);
                shapes = shapes.push(x);
            }
            if !self.opt_consume(Syntax::Kind(TokenKind::Comma))? {
                assert(read_list(st) == (seq![x], st1));
                break;
            }
            assert(read_list(st).0 == seq![x] + read_list(state_of(*self)).0);
            assert(shapes.drop_last() + (seq![x] + read_list(state_of(*self)).0) =~= shapes + read_list(
                state_of(*self),
            ).0);
        }
        Ok(list)
    }
}

/// The names of what the parser looks for where no single token names it.
#[derive(Debug, Copy, Clone, PartialEq, Eq, Structural)]
pub enum Wanted {
    EventOrFunction,
    BaseTypeKeyword,
    TypeName,
    Collectable,
    Group,
}

/// How each wanted thing is named in messages.
pub open spec fn wanted_text(w: Wanted) -> Seq<u8> {
    match w {
        Wanted::EventOrFunction => seq![101u8, 118u8, 101u8, 110u8, 116u8, 32u8, 111u8, 114u8, 32u8, 102u8, 117u8, 110u8, 99u8, 116u8, 105u8, 111u8, 110u8],
        Wanted::BaseTypeKeyword => seq![98u8, 97u8, 115u8, 101u8, 32u8, 116u8, 121u8, 112u8, 101u8, 32u8, 107u8, 101u8, 121u8, 119u8, 111u8, 114u8, 100u8],
        Wanted::TypeName => seq![116u8, 121u8, 112u8, 101u8, 32u8, 110u8, 97u8, 109u8, 101u8],
        Wanted::Collectable => seq![99u8, 111u8, 108u8, 108u8, 101u8, 99u8, 116u8, 97u8, 98u8, 108u8, 101u8],
        Wanted::Group => seq![103u8, 114u8, 111u8, 117u8, 112u8],
    }
}

impl Wanted {
    pub fn as_bytes(&self) -> (r: Vec<u8>)
        ensures
            r@ == wanted_text(*self),
    {
        let r = match self {
            Wanted::EventOrFunction => vec![101u8, 118u8, 101u8, 110u8, 116u8, 32u8, 111u8, 114u8, 32u8, 102u8, 117u8, 110u8, 99u8, 116u8, 105u8, 111u8, 110u8],
            Wanted::BaseTypeKeyword => vec![98u8, 97u8, 115u8, 101u8, 32u8, 116u8, 121u8, 112u8, 101u8, 32u8, 107u8, 101u8, 121u8, 119u8, 111u8, 114u8, 100u8],
            Wanted::TypeName => vec![116u8, 121u8, 112u8, 101u8, 32u8, 110u8, 97u8, 109u8, 101u8],
            Wanted::Collectable => vec![99u8, 111u8, 108u8, 108u8, 101u8, 99u8, 116u8, 97u8, 98u8, 108u8, 101u8],
            Wanted::Group => vec![103u8, 114u8, 111u8, 117u8, 112u8],
        };
        assert(r@ =~= wanted_text(*self));
        r
    }
}

/// The base type that `parse_base_custom_type` reads from a keyword `w`
/// followed by a token of kind `k1`, and how many tokens it takes; `None`
/// where the keyword starts no base type.
pub open spec fn base_type_read(w: Keyword, k1: TokenKindView) -> Option<(BaseCustomType, nat)> {
    match w {
        Keyword::Collectable => if k1 == TokenKindView::Keyword(Keyword::Group) {
            Some((BaseCustomType::CollectableGroup, 2nat))
        } else {
            Some((BaseCustomType::Collectable, 1nat))
        },
        Keyword::User => if k1 == TokenKindView::Keyword(Keyword::Group) {
            Some((BaseCustomType::UserGroup, 2nat))
        } else {
            Some((BaseCustomType::User, 1nat))
        },
        Keyword::Remote => if k1 == TokenKindView::Keyword(Keyword::Event) {
            Some((BaseCustomType::RemoteEvent, 2nat))
        } else if k1 == TokenKindView::Keyword(Keyword::Function) {
            Some((BaseCustomType::RemoteFunction, 2nat))
        } else {
            None
        },
        Keyword::Array => Some((BaseCustomType::Array, 1nat)),
        Keyword::Object => Some((BaseCustomType::Object, 1nat)),
        Keyword::Event => Some((BaseCustomType::Event, 1nat)),
        Keyword::Function => Some((BaseCustomType::Function, 1nat)),
        _ => None,
    }
}

/// No two readings give one base type: where two keyword and next-token
/// pairs both read as the same base type, they start with the same keyword
/// and take as many tokens. So `user` and `user group` (or `collectable`
/// and `collectable group`) never read alike.
pub proof fn lemma_base_type_read_distinct(w1: Keyword, k1: TokenKindView, w2: Keyword, k2: TokenKindView)
    ensures
        match (base_type_read(w1, k1), base_type_read(w2, k2)) {
            (Some((b1, n1)), Some((b2, n2))) => b1 == b2 ==> w1 == w2 && n1 == n2,
            _ => true,
        },
{
}

/// `user` and `collectable` always start a base type: followed by `group`
/// it is the group of users, or of collectables, and takes both tokens;
/// followed by anything else it is a single user, or collectable, and takes
/// the keyword alone.
pub proof fn lemma_base_type_read_groups(k1: TokenKindView)
    ensures
        match base_type_read(Keyword::User, k1) {
            Some((b, n)) => (b == BaseCustomType::UserGroup <==> k1 == TokenKindView::Keyword(Keyword::Group))
                && (b == BaseCustomType::User <==> k1 != TokenKindView::Keyword(Keyword::Group))
                && (n == 2 <==> k1 == TokenKindView::Keyword(Keyword::Group)),
            None => false,
        },
        match base_type_read(Keyword::Collectable, k1) {
            Some((b, n)) => (b == BaseCustomType::CollectableGroup <==> k1 == TokenKindView::Keyword(Keyword::Group))
                && (b == BaseCustomType::Collectable <==> k1 != TokenKindView::Keyword(Keyword::Group))
                && (n == 2 <==> k1 == TokenKindView::Keyword(Keyword::Group)),
            None => false,
        },
{
}

/// The parser `new` is `old` moved `n` tokens on.
pub open spec fn advanced_by(old: Parser, new: Parser, n: nat) -> bool {
    &&& (new.spec_kind(), new.spec_inp(), new.spec_span()) == after_advances(
        old.spec_kind(),
        old.spec_inp(),
        old.spec_span(),
        n,
    )
    &&& new.spec_filename() == old.spec_filename()
}

impl<'p> Parser<'p> {
    /// The kind of a custom type: `collectable [group]`, `user [group]`,
    /// `remote event`, `remote function`, `array`, `object`, `event` or
    /// `function`.
    pub fn parse_base_custom_type(&mut self) -> (r: Result<BaseCustomType, ParseErrorKind>)
        requires
            old(self).wf(),
        ensures
            final(self).wf(),
            final(self).spec_filename() == old(self).spec_filename(),
            final(self).spec_measure() <= old(self).spec_measure(),
            r is Ok ==> final(self).spec_measure() < old(self).spec_measure(),
            ({
                let k0 = old(self).spec_kind();
                let k1 = next_kind(old(self).spec_inp());
                let span1 = next_span(old(self).spec_inp(), old(self).spec_span());
                match k0 {
                    TokenKindView::Keyword(w) => match base_type_read(w, k1) {
                        Some((b, n)) => r == Ok::<BaseCustomType, ParseErrorKind>(b) && advanced_by(
                            *old(self),
                            *final(self),
                            n,
                        ),
                        None => if w == Keyword::Remote {
                            r matches Err(e) && is_expected_error(e, wanted_text(Wanted::EventOrFunction), k1, span1)
                        } else {
                            *final(self) == *old(self) && (r matches Err(e) && is_expected_error(
                                e,
                                wanted_text(Wanted::BaseTypeKeyword),
                                k0,
                                old(self).spec_span(),
                            ))
                        },
                    },
                    _ => *final(self) == *old(self) && (r matches Err(e) && is_expected_error(
                        e,
                        match_text(TokenMatch::Keyword),
                        k0,
                        old(self).spec_span(),
                    )),
                }
            }),
    {
        proof {
            lemma_after_advances_step(self.spec_kind(), self.spec_inp(), self.spec_span(), 0);
            lemma_after_advances_step(self.spec_kind(), self.spec_inp(), self.spec_span(), 1);
        }
        self.expect(Syntax::Match(TokenMatch::Keyword))?;
        let kwd = match self.token.kind {
            TokenKind::Keyword(k) => k,
            _ => vstd::pervasive::unreached(),
        };
        match kwd {
            Keyword::Collectable => {
                self.advance()?;
                if self.opt_consume(Syntax::Keyword(Keyword::Group))? {
                    Ok(BaseCustomType::CollectableGroup)
                } else {
                    Ok(BaseCustomType::Collectable)
                }
            },
            Keyword::User => {
                self.advance()?;
                if self.opt_consume(Syntax::Keyword(Keyword::Group))? {
                    Ok(BaseCustomType::UserGroup)
                } else {
                    Ok(BaseCustomType::User)
                }
            },
            Keyword::Remote => {
                self.advance()?;
                if self.opt_consume(Syntax::Keyword(Keyword::Event))? {
                    Ok(BaseCustomType::RemoteEvent)
                } else if self.opt_consume(Syntax::Keyword(Keyword::Function))? {
                    Ok(BaseCustomType::RemoteFunction)
                } else {
                    Err(self.e_expected(Wanted::EventOrFunction.as_bytes()))
                }
            },
            Keyword::Array => {
                self.advance()?;
                Ok(BaseCustomType::Array)
            },
            Keyword::Object => {
                self.advance()?;
                Ok(BaseCustomType::Object)
            },
            Keyword::Event => {
                self.advance()?;
                Ok(BaseCustomType::Event)
            },
            Keyword::Function => {
                self.advance()?;
                Ok(BaseCustomType::Function)
            },
            _ => Err(self.e_expected(Wanted::BaseTypeKeyword.as_bytes())),
        }
    }

    /// `end ;`
    pub fn parse_end(&mut self) -> (r: Result<(), ParseErrorKind>)
        requires
            old(self).wf(),
        ensures
            final(self).wf(),
            final(self).spec_filename() == old(self).spec_filename(),
            final(self).spec_measure() <= old(self).spec_measure(),
            ({
                let k0 = old(self).spec_kind();
                let k1 = next_kind(old(self).spec_inp());
                let span1 = next_span(old(self).spec_inp(), old(self).spec_span());
                if k0 != TokenKindView::Keyword(Keyword::End) {
                    *final(self) == *old(self) && (r matches Err(e) && is_expected_error(
                        e,
                        keyword_bytes(Keyword::End),
                        k0,
                        old(self).spec_span(),
                    ))
                } else if k1 != TokenKindView::Semicolon {
                    r matches Err(e) && is_expected_error(e, token_text(TokenKindView::Semicolon), k1, span1)
                } else {
                    r is Ok && advanced_by(*old(self), *final(self), 2)
                }
            }),
    {
        proof {
            lemma_after_advances_step(self.spec_kind(), self.spec_inp(), self.spec_span(), 0);
            lemma_after_advances_step(self.spec_kind(), self.spec_inp(), self.spec_span(), 1);
        }
        self.consume(Syntax::Keyword(Keyword::End))?;
        self.consume(Syntax::Kind(TokenKind::Semicolon))
    }

    /// `include 'path' ;`, which gives the path.
    pub fn parse_include(&mut self) -> (r: Result<Vec<u8>, ParseErrorKind>)
        requires
            old(self).wf(),
        ensures
            final(self).wf(),
            final(self).spec_filename() == old(self).spec_filename(),
            final(self).spec_measure() <= old(self).spec_measure(),
            r is Ok ==> final(self).spec_measure() < old(self).spec_measure(),
            ({
                let (k1, inp1, span1) = after_advances(old(self).spec_kind(), old(self).spec_inp(), old(self).spec_span(), 1);
                let (k2, inp2, span2) = after_advances(old(self).spec_kind(), old(self).spec_inp(), old(self).spec_span(), 2);
                if old(self).spec_kind() != TokenKindView::Keyword(Keyword::Include) {
                    *final(self) == *old(self) && (r matches Err(e) && is_expected_error(
                        e,
                        keyword_bytes(Keyword::Include),
                        old(self).spec_kind(),
                        old(self).spec_span(),
                    ))
                } else if !(k1 is String) {
                    r matches Err(e) && is_expected_error(e, match_text(TokenMatch::String), k1, span1)
                } else if k2 != TokenKindView::Semicolon {
                    r matches Err(e) && is_expected_error(e, token_text(TokenKindView::Semicolon), k2, span2)
                } else {
                    (r matches Ok(path) && k1 == TokenKindView::String(path@)) && advanced_by(*old(self), *final(self), 3)
                }
            }),
    {
        proof {
            lemma_after_advances_step(self.spec_kind(), self.spec_inp(), self.spec_span(), 0);
            lemma_after_advances_step(self.spec_kind(), self.spec_inp(), self.spec_span(), 1);
            lemma_after_advances_step(self.spec_kind(), self.spec_inp(), self.spec_span(), 2);
        }
        self.consume(Syntax::Keyword(Keyword::Include))?;
        let path_token = self.take(Syntax::Match(TokenMatch::String))?;
        self.consume(Syntax::Kind(TokenKind::Semicolon))?;
        match path_token.kind {
            TokenKind::String(path) => Ok(slice_to_vec(path)),
            _ => vstd::pervasive::unreached(),
        }
    }

    /// `has amount ;` makes instances group by amount; without it a type
    /// inherits its grouping.
    pub fn parse_auto_grouping(&mut self) -> (r: Result<AutoGrouping, ParseErrorKind>)
        requires
            old(self).wf(),
        ensures
            final(self).wf(),
            final(self).spec_filename() == old(self).spec_filename(),
            final(self).spec_measure() <= old(self).spec_measure(),
            ({
                let k0 = old(self).spec_kind();
                let (k1, inp1, span1) = after_advances(k0, old(self).spec_inp(), old(self).spec_span(), 1);
                let (k2, inp2, span2) = after_advances(k0, old(self).spec_inp(), old(self).spec_span(), 2);
                if k0 == TokenKindView::Keyword(Keyword::Has) && k1 == TokenKindView::Keyword(Keyword::Amount) {
                    if k2 == TokenKindView::Semicolon {
                        r == Ok::<AutoGrouping, ParseErrorKind>(AutoGrouping::ByAmount) && advanced_by(
                            *old(self),
                            *final(self),
                            3,
                        )
                    } else {
                        r matches Err(e) && is_expected_error(e, token_text(TokenKindView::Semicolon), k2, span2)
                    }
                } else {
                    r == Ok::<AutoGrouping, ParseErrorKind>(AutoGrouping::Inherit) && *final(self) == *old(self)
                }
            }),
    {
        proof {
            lemma_after_advances_step(self.spec_kind(), self.spec_inp(), self.spec_span(), 0);
            lemma_after_advances_step(self.spec_kind(), self.spec_inp(), self.spec_span(), 1);
            lemma_after_advances_step(self.spec_kind(), self.spec_inp(), self.spec_span(), 2);
        }
        if self.is(Syntax::Keyword(Keyword::Has)) && Syntax::Keyword(Keyword::Amount).matches(&self.peek()?.kind) {
            self.advance_x(2)?;
            self.consume(Syntax::Kind(TokenKind::Semicolon))?;
            Ok(AutoGrouping::ByAmount)
        } else {
            Ok(AutoGrouping::Inherit)
        }
    }

    /// `upgrades`, which gives no upgrades yet.
    pub fn parse_upgrades(&mut self) -> (r: Result<Vec<Upgrade>, ParseErrorKind>)
        requires
            old(self).wf(),
        ensures
            final(self).wf(),
            final(self).spec_filename() == old(self).spec_filename(),
            final(self).spec_measure() <= old(self).spec_measure(),
            old(self).spec_kind() == TokenKindView::Keyword(Keyword::Upgrades) ==> (r matches Ok(v) && v@.len() == 0)
                && stepped(*old(self), *final(self)),
            old(self).spec_kind() != TokenKindView::Keyword(Keyword::Upgrades) ==> *final(self) == *old(self) && (
            r matches Err(e) && is_expected_error(e, keyword_bytes(Keyword::Upgrades), old(self).spec_kind(), old(self).spec_span())),
    {
        self.consume(Syntax::Keyword(Keyword::Upgrades))?;
        Ok(Vec::new())
    }

    /// `redemptions`, which gives no redemptions yet.
    pub fn parse_redemptions(&mut self) -> (r: Result<Vec<Redemption>, ParseErrorKind>)
        requires
            old(self).wf(),
        ensures
            final(self).wf(),
            final(self).spec_filename() == old(self).spec_filename(),
            final(self).spec_measure() <= old(self).spec_measure(),
            old(self).spec_kind() == TokenKindView::Keyword(Keyword::Redemptions) ==> (r matches Ok(v) && v@.len()
                == 0) && stepped(*old(self), *final(self)),
            old(self).spec_kind() != TokenKindView::Keyword(Keyword::Redemptions) ==> *final(self) == *old(self)
                && (r matches Err(e) && is_expected_error(
                e,
                keyword_bytes(Keyword::Redemptions),
                old(self).spec_kind(),
                old(self).spec_span(),
            )),
    {
        self.consume(Syntax::Keyword(Keyword::Redemptions))?;
        Ok(Vec::new())
    }
}

/// The primitive type that a keyword names by itself in a type.
pub open spec fn keyword_primitive(w: Keyword) -> Option<PrimitiveType> {
    match w {
        Keyword::Option => Some(PrimitiveType::Option),
        Keyword::Text => Some(PrimitiveType::Text),
        Keyword::Integer => Some(PrimitiveType::Integer),
        Keyword::Decimal => Some(PrimitiveType::Decimal),
        Keyword::Datetime => Some(PrimitiveType::DateTime),
        Keyword::Timespan => Some(PrimitiveType::TimeSpan),
        Keyword::Object => Some(PrimitiveType::Object),
        _ => None,
    }
}

/// A keyword that names a primitive type names the one spelt like it: the
/// name of the primitive type that `keyword_primitive` gives is the
/// keyword's own spelling, so no two such keywords give the same type.
pub proof fn lemma_keyword_primitive_names(w: Keyword)
    ensures
        keyword_primitive(w) matches Some(p) ==> primitive_name(p) == keyword_bytes(w),
{
    if let Some(p) = keyword_primitive(w) {
        assert(primitive_name(p) =~= keyword_bytes(w));
    }
}

/// The index of a primitive type.
fn primitive_index(ast: &Ast, t: PrimitiveType) -> (r: usize)
    requires
        ast.wf(),
    ensures
        r == primitive_slot(t),
{
    let set = ast.primitive();
    match t {
        PrimitiveType::Void => set.void(),
        PrimitiveType::Option => set.option(),
        PrimitiveType::Text => set.text(),
        PrimitiveType::LocalizedText => set.localized_text(),
        PrimitiveType::Integer => set.integer(),
        PrimitiveType::Decimal => set.decimal(),
        PrimitiveType::DateTime => set.date_time(),
        PrimitiveType::TimeSpan => set.time_span(),
        PrimitiveType::Object => set.object(),
        PrimitiveType::Array => set.array(),
    }
}

/// The name of an array type of the given length and element type name.
pub open spec fn array_text(length: Option<u32>, of: Option<Seq<u8>>) -> Seq<u8> {
    array_name_text(ArrayName { length, of_type: None }) + match of {
        Some(t) => seq![32u8, 111u8, 102u8, 32u8] + t,
        None => Seq::empty(),
    }
}

proof fn lemma_array_text(length: Option<u32>, of_type: Option<TokenValue<Vec<u8>>>)
    ensures
        array_name_text(ArrayName { length, of_type }) == array_text(
            length,
            match of_type {
                Some(t) => Some(name_bytes(t)),
                None => None,
            },
        ),
{
    assert(array_name_text(ArrayName { length, of_type: None }) + Seq::<u8>::empty() =~= array_name_text(
        ArrayName { length, of_type: None },
    ));
}

/// The length that `array x N` gives from `st`, the place of `array`, and
/// the place after it: no length where `x` does not follow, and `None`
/// where no integer in `0..=u32::MAX` follows `x`.
pub open spec fn array_length_read(st: (TokenKindView, Seq<u8>, TokenSpan)) -> Option<
    (Option<u32>, (TokenKindView, Seq<u8>, TokenSpan)),
> {
    let st1 = step_state(st);
    if st1.0 == TokenKindView::Keyword(Keyword::X) {
        let st2 = step_state(st1);
        match st2.0 {
            TokenKindView::Integer(v) => if 0 <= v <= u32::MAX {
                Some((Some(v as u32), step_state(st2)))
            } else {
                None
            },
            _ => None,
        }
    } else {
        Some((None, st1))
    }
}

/// The name of the type that the tokens from `st` name, and the place after
/// them; `None` where they name no type.
pub open spec fn type_text_read(st: (TokenKindView, Seq<u8>, TokenSpan)) -> Option<
    (Seq<u8>, (TokenKindView, Seq<u8>, TokenSpan)),
>
    decreases state_measure(st),
{
    match st.0 {
        TokenKindView::Identifier(s) => Some((s, step_state(st))),
        TokenKindView::Keyword(Keyword::Localized) => {
            let st1 = step_state(st);
            if st1.0 == TokenKindView::Keyword(Keyword::Text) {
                Some((keyword_bytes(Keyword::Text), step_state(st1)))
            } else {
                None
            }
        },
        TokenKindView::Keyword(Keyword::Array) => match array_length_read(st) {
            None => None,
            Some((length, st3)) => if st3.0 == TokenKindView::Keyword(Keyword::Of) {
                let st4 = step_state(st3);
                if state_measure(st4) < state_measure(st) {
                    match type_text_read(st4) {
                        Some((t, st5)) => Some((array_text(length, Some(t)), st5)),
                        None => None,
                    }
                } else {
                    None
                }
            } else {
                Some((array_text(length, None), st3))
            },
        },
        TokenKindView::Keyword(w) => match keyword_primitive(w) {
            Some(_) => Some((keyword_bytes(w), step_state(st))),
            None => None,
        },
        _ => None,
    }
}

/// The message when an array's length does not fit in 32 bits.
pub const ARRAY_LENGTH_REASON: &'static str = "array length must be 32-bit unsigned";

impl<'p> Parser<'p> {
    /// A type: a name, a primitive type, `localized text`, or
    /// `array [x <length>] [of <type>]`.
    pub fn parse_type(&mut self, ast: &mut Ast) -> (r: Result<ItemRef, ParseErrorKind>)
        requires
            old(self).wf(),
            old(ast).wf(),
        ensures
            final(self).wf(),
            final(ast).wf(),
            final(self).spec_filename() == old(self).spec_filename(),
            final(self).spec_measure() <= old(self).spec_measure(),
            r is Ok ==> final(self).spec_measure() < old(self).spec_measure(),
            ast_grew(*old(ast), *final(ast)),
            r matches Ok(ir) ==> (ir.item matches Some(i) ==> i < final(ast).spec_types().len()),
            (r is Ok) == (type_text_read(state_of(*old(self))) is Some),
            r matches Ok(ir) ==> type_text_read(state_of(*old(self))) == Some(
                (name_bytes(ir.name), state_of(*final(self))),
            ),
            ({
                let k0 = old(self).spec_kind();
                let span0 = old(self).spec_span();
                let k1 = next_kind(old(self).spec_inp());
                let span1 = next_span(old(self).spec_inp(), span0);
                match k0 {
                    TokenKindView::Identifier(s) => *final(ast) == *old(ast) && stepped(*old(self), *final(self))
                        && (r matches Ok(ir) && name_bytes(ir.name) == s && ir.name.spec_span() == span0
                        && ir.item is None),
                    TokenKindView::Keyword(Keyword::Localized) => *final(ast) == *old(ast) && if k1
                        == TokenKindView::Keyword(Keyword::Text) {
                        advanced_by(*old(self), *final(self), 2) && (r matches Ok(ir) && name_bytes(ir.name)
                            == keyword_bytes(Keyword::Text) && ir.name.spec_span() == span1 && ir.item
                            == Some(primitive_slot(PrimitiveType::LocalizedText)))
                    } else {
                        r matches Err(e) && is_expected_error(e, keyword_bytes(Keyword::Text), k1, span1)
                    },
                    TokenKindView::Keyword(Keyword::Array) => {
                        let st2 = step_state(step_state(state_of(*old(self))));
                        &&& (r is Ok) == (type_text_read(state_of(*old(self))) is Some)
                        &&& r matches Ok(ir) ==> (ir.item matches Some(i) && name_bytes(ir.name)
                            == type_name_bytes(final(ast).spec_types()[i as int]) && find_type(
                            final(ast).spec_types(),
                            name_bytes(ir.name),
                        ) == Some(i as int) && type_text_read(state_of(*old(self))) == Some(
                            (name_bytes(ir.name), state_of(*final(self))),
                        ))
                        &&& k1 == TokenKindView::Keyword(Keyword::X) ==> (st2.0 matches TokenKindView::Integer(v)
                            ==> (!(0 <= v <= u32::MAX) ==> (r matches Err(ParseErrorKind::IntegerOutOfRange(tv, why))
                            && tv.spec_value() == v && tv.spec_span() == st2.2 && why == ARRAY_LENGTH_REASON)))
                    },
                    TokenKindView::Keyword(w) => *final(ast) == *old(ast) && match keyword_primitive(w) {
                        Some(p) => stepped(*old(self), *final(self)) && (r matches Ok(ir) && name_bytes(ir.name)
                            == keyword_bytes(w) && ir.name.spec_span() == span0 && ir.item == Some(primitive_slot(p))
                            && type_name_bytes(final(ast).spec_types()[primitive_slot(p) as int]) == name_bytes(ir.name)),
                        None => *final(self) == *old(self) && (r matches Err(e) && is_expected_error(
                            e,
                            wanted_text(Wanted::TypeName),
                            k0,
                            span0,
                        )),
                    },
                    _ => *final(ast) == *old(ast) && *final(self) == *old(self) && (r matches Err(e)
                        && is_expected_error(e, wanted_text(Wanted::TypeName), k0, span0)),
                }
            }),
        decreases old(self).spec_measure(), 1nat,
    {
        proof {
            lemma_after_advances_step(self.spec_kind(), self.spec_inp(), self.spec_span(), 0);
            lemma_after_advances_step(self.spec_kind(), self.spec_inp(), self.spec_span(), 1);
            lemma_ast_grew_refl(*ast);
        }
        if self.is(Syntax::Match(TokenMatch::Identifier)) {
            let item_ref = ItemRef::new(self.string_token_value());
            self.advance()?;
            return Ok(item_ref);
        }
        if !self.is(Syntax::Match(TokenMatch::Keyword)) {
            return Err(self.e_expected(Wanted::TypeName.as_bytes()));
        }
        let keyword = match self.token.kind {
            TokenKind::Keyword(k) => k,
            _ => vstd::pervasive::unreached(),
        };
        let primitive_type = match keyword {
            Keyword::Option => PrimitiveType::Option,
            Keyword::Text => PrimitiveType::Text,
            Keyword::Localized => {
                self.advance()?;
                self.expect(Syntax::Keyword(Keyword::Text))?;
                PrimitiveType::LocalizedText
            },
            Keyword::Integer => PrimitiveType::Integer,
            Keyword::Decimal => PrimitiveType::Decimal,
            Keyword::Datetime => PrimitiveType::DateTime,
            Keyword::Timespan => PrimitiveType::TimeSpan,
            Keyword::Object => PrimitiveType::Object,
            Keyword::Array => {
                return self.parse_array_type(ast);
            },
            _ => {
                return Err(self.e_expected(Wanted::TypeName.as_bytes()));
            },
        };
        let tv = self.string_token_value();
        let gr = primitive_index(ast, primitive_type);
        proof {
            ast.lemma_wf_basics();
            lemma_keyword_primitive_names(keyword);
        }
        self.advance()?;
        Ok(ItemRef::with_item(tv, gr))
    }

    /// An array type: `array`, then `x` and its length, then `of` and the
    /// type of its items, each part optional; the type is added to the
    /// program if it is new.
    fn parse_array_type(&mut self, ast: &mut Ast) -> (r: Result<ItemRef, ParseErrorKind>)
        requires
            old(self).wf(),
            old(ast).wf(),
            old(self).spec_kind() == TokenKindView::Keyword(Keyword::Array),
        ensures
            final(self).wf(),
            final(ast).wf(),
            final(self).spec_filename() == old(self).spec_filename(),
            final(self).spec_measure() <= old(self).spec_measure(),
            r is Ok ==> final(self).spec_measure() < old(self).spec_measure(),
            ast_grew(*old(ast), *final(ast)),
            (r is Ok) == (type_text_read(state_of(*old(self))) is Some),
            r matches Ok(ir) ==> (ir.item matches Some(i) && i < final(ast).spec_types().len() && name_bytes(
                ir.name,
            ) == type_name_bytes(final(ast).spec_types()[i as int]) && find_type(
                final(ast).spec_types(),
                name_bytes(ir.name),
            ) == Some(i as int) && type_text_read(state_of(*old(self))) == Some(
                (name_bytes(ir.name), state_of(*final(self))),
            )),
            ({
                let st1 = step_state(state_of(*old(self)));
                let st2 = step_state(st1);
                st1.0 == TokenKindView::Keyword(Keyword::X) ==> (st2.0 matches TokenKindView::Integer(v) ==> (!(0
                    <= v <= u32::MAX) ==> (r matches Err(ParseErrorKind::IntegerOutOfRange(tv, why))
                    && tv.spec_value() == v && tv.spec_span() == st2.2 && why == ARRAY_LENGTH_REASON)))
            }),
        decreases old(self).spec_measure(), 0nat,
    {
        let ghost st0 = state_of(*self);
        proof {
            lemma_ast_grew_refl(*ast);
        }
        // "array" is a primitive type, but there are also sized and
        // typed arrays: array (x length) (of type)
        let mut next = self.take_next()?;
        let mut length: Option<u32> = None;
        let mut ty: Option<ItemRef> = None;
        if Syntax::Keyword(Keyword::X).matches(&next.kind) {
            self.advance()?;
            self.expect(Syntax::Match(TokenMatch::Integer))?;
            let tv = self.int_token_value().unwrap();
            self.advance()?;
            let v = *tv.value();
            if v < 0 || v > 4294967295i64 {
                return Err(ParseErrorKind::IntegerOutOfRange(tv, ARRAY_LENGTH_REASON));
            }
            length = Some(v as u32);
            next = clone_token(&self.token);
        }
        assert(array_length_read(st0) == Some((length, state_of(*self))));
        let ghost st3 = state_of(*self);
        if Syntax::Keyword(Keyword::Of).matches(&next.kind) {
            self.advance()?;
            ty = Some(self.parse_type(ast)?);
        }
        let of_type = match ty {
            Some(t) => Some(t.name),
            None => None,
        };
        proof {
            lemma_array_text(length, of_type);
        }
        let ghost before = *ast;
        let array = ast.get_array(ArrayName::new(length, of_type));
        proof {
            if find_type(before.spec_types(), array_name_text(ArrayName { length, of_type })) is None {
                lemma_ast_grew_append(before, *ast);
            } else {
                lemma_ast_grew_refl(*ast);
            }
            lemma_ast_grew_trans(*old(ast), before, *ast);
        }
        let name = ast.type_at(array).name().clone_name();
        assert(type_name_bytes(ast.spec_types()[array as int]) == array_name_text(ArrayName { length, of_type }));
        Ok(ItemRef::with_item(name, array))
    }
}

/// Whether the scopes `s1` keep the scopes `s0` where they were, and may
/// hold more after them.
pub open spec fn scopes_kept(s0: Seq<Scope>, s1: Seq<Scope>) -> bool {
    s1.len() >= s0.len() && s1.take(s0.len() as int) == s0
}

proof fn lemma_scopes_kept_trans(s0: Seq<Scope>, s1: Seq<Scope>, s2: Seq<Scope>)
    requires
        scopes_kept(s0, s1),
        scopes_kept(s1, s2),
    ensures
        scopes_kept(s0, s2),
{
    assert(s2.take(s0.len() as int) =~= s0) by {
        assert forall|i: int| 0 <= i < s0.len() implies s2.take(s0.len() as int)[i] == s0[i] by {
            assert(s2.take(s1.len() as int)[i] == s1[i]);
            assert(s1.take(s0.len() as int)[i] == s0[i]);
        }
    }
}

proof fn lemma_scopes_kept_refl(s0: Seq<Scope>)
    ensures
        scopes_kept(s0, s0),
{
    assert(s0.take(s0.len() as int) =~= s0);
}

/// Whether the type at `target` is a collectable or a group.
pub open spec fn collectable_like(ast: Ast, target: usize) -> bool {
    target < ast.spec_types().len() && (ast.spec_types()[target as int] matches Type::Custom(c) && (c is Collectable
        || c is CollectableGroup))
}

/// A kind of `has` block in the body of a collectable or a group.
#[derive(Debug, Copy, Clone, PartialEq, Eq, Structural)]
pub enum HasBlock {
    Collectable,
    CollectableGroup,
    Redemptions,
    Upgrades,
}

/// What a step of parsing keeps: both invariants, the file, no more input
/// than before, and every type and scope of the program.
pub open spec fn parse_kept(p0: Parser, p1: Parser, a0: Ast, a1: Ast) -> bool {
    &&& p1.wf()
    &&& a1.wf()
    &&& p1.spec_filename() == p0.spec_filename()
    &&& p1.spec_measure() <= p0.spec_measure()
    &&& ast_grew(a0, a1)
}

/// What the program loop hands back: the end of the file, or an include
/// to read before going on.
#[derive(Debug)]
pub enum ProgramStep {
    Done,
    Include(Vec<u8>),
}

proof fn lemma_collectable_like_kept(a0: Ast, a1: Ast, target: usize)
    requires
        collectable_like(a0, target),
        ast_grew(a0, a1),
    ensures
        collectable_like(a1, target),
        a1.spec_types()[target as int] matches Type::Custom(c1) && (a0.spec_types()[target as int] matches Type::Custom(c0)
            && custom_base(c1) == custom_base(c0)),
{
    assert(same_kind(a0.spec_types()[target as int], a1.spec_types()[target as int]));
}

/// The first scope of a collectable or a group.
fn body_scope(ast: &Ast, target: usize) -> (r: usize)
    requires
        ast.wf(),
        collectable_like(*ast, target),
    ensures
        r < ast.spec_scopes().len(),
        ast.spec_types()[target as int] matches Type::Custom(CustomType::Collectable(c)) ==> r == c.scope,
        ast.spec_types()[target as int] matches Type::Custom(CustomType::CollectableGroup(c)) ==> r == c.scope,
{
    proof {
        ast.lemma_wf_basics();
        assert(type_scopes(ast.spec_types()[target as int]).len() == 1);
        assert(type_scopes(ast.spec_types()[target as int])[0] < ast.spec_scopes().len());
    }
    match ast.type_at(target) {
        Type::Custom(CustomType::Collectable(c)) => c.scope,
        Type::Custom(CustomType::CollectableGroup(g)) => g.scope,
        _ => vstd::pervasive::unreached(),
    }
}

impl<'p> Parser<'p> {
    /// property <name> <type> [= <expression>]
    pub fn parse_property(&mut self, scope: usize, ast: &mut Ast) -> (r: Result<Variable, ParseErrorKind>)
        requires
            old(self).wf(),
            old(ast).wf(),
            scope < old(ast).spec_scopes().len(),
        ensures
            parse_kept(*old(self), *final(self), *old(ast), *final(ast)),
            r is Ok ==> final(self).spec_measure() < old(self).spec_measure(),
            r matches Ok(v) ==> init_in(v, final(ast).spec_scopes().len()),
            match old(self).spec_kind() {
                TokenKindView::Identifier(s) => r matches Ok(v) ==> name_bytes(v.name) == s && v.name.spec_span()
                    == old(self).spec_span(),
                k => *final(self) == *old(self) && *final(ast) == *old(ast) && (r matches Err(e)
                    && is_expected_error(e, match_text(TokenMatch::Identifier), k, old(self).spec_span())),
            },
            ({
                let (k1, inp1, span1) = after_advances(old(self).spec_kind(), old(self).spec_inp(), old(self).spec_span(), 1);
                let k2 = after_advances(old(self).spec_kind(), old(self).spec_inp(), old(self).spec_span(), 2).0;
                let simple = k1 is Identifier || (k1 matches TokenKindView::Keyword(w) && keyword_primitive(w) is Some);
                (old(self).spec_kind() is Identifier && simple) ==> (
                    (k2 != TokenKindView::Equal ==> r is Ok)
                    && (r matches Ok(v) ==> (v.initial is Some <==> k2 == TokenKindView::Equal)
                        && name_bytes(v.ty.name) == token_text(k1) && v.ty.name.spec_span() == span1
                        && v.ty.item == match k1 {
                            TokenKindView::Keyword(w) => Some(primitive_slot(keyword_primitive(w).unwrap())),
                            _ => None,
                        }))
            }),
            old(self).spec_kind() is Identifier && step_state(state_of(*old(self))).0 != TokenKindView::Keyword(
                Keyword::Array,
            ) ==> *final(ast) == *old(ast),
            old(self).spec_kind() is Identifier ==> match type_text_read(step_state(state_of(*old(self)))) {
                None => r is Err,
                Some((t, st2)) => if st2.0 == TokenKindView::Equal {
                    let (init, st3) = read_prec(step_state(st2), 0);
                    &&& (r is Ok) == (init is Some)
                    &&& r matches Ok(v) ==> name_bytes(v.ty.name) == t && state_of(*final(self)) == st3
                        && (v.initial matches Some(e) && expr_is(
                        e,
                        init->0,
                        scope,
                        final(ast).spec_scopes()[scope as int].kind,
                    ))
                } else {
                    r matches Ok(v) && name_bytes(v.ty.name) == t && v.initial is None && state_of(*final(self))
                        == st2
                },
            },
    {
        proof {
            lemma_ast_grew_refl(*ast);
            lemma_after_advances_step(self.spec_kind(), self.spec_inp(), self.spec_span(), 0);
            lemma_after_advances_step(self.spec_kind(), self.spec_inp(), self.spec_span(), 1);
        }
        self.expect(Syntax::Match(TokenMatch::Identifier))?;
        let name = self.string_token_value();
        self.advance()?;
        let ty = self.parse_type(ast)?;
        let mut var = Variable::new(name, ty);
        if self.is(Syntax::Kind(TokenKind::Equal)) {
            self.advance()?;
            let init = self.parse_expression(scope, ast)?;
            var.set_initial(init);
        }
        Ok(var)
    }

    /// A name of a collectable used before its definition.
    pub fn parse_inline_collectable(&mut self, ast: &mut Ast) -> (r: Result<EarlyRefType, ParseErrorKind>)
        requires
            old(self).wf(),
            old(ast).wf(),
        ensures
            final(ast).spec_types() == old(ast).spec_types(),
            scopes_kept(old(ast).spec_scopes(), final(ast).spec_scopes()),
            parse_kept(*old(self), *final(self), *old(ast), *final(ast)),
            r matches Ok(t) ==> t.scope < final(ast).spec_scopes().len() && t.real_ty == BaseCustomType::Collectable
                && stepped(*old(self), *final(self)) && old(self).spec_kind() == TokenKindView::Identifier(name_bytes(t.name)),
            old(self).spec_kind() is Identifier ==> (r matches Ok(t) && t.name.spec_span() == old(self).spec_span()
                && t.parent is None),
            !(old(self).spec_kind() is Identifier) ==> *final(self) == *old(self) && *final(ast) == *old(ast) && (
            r matches Err(e) && is_expected_error(e, match_text(TokenMatch::Identifier), old(self).spec_kind(), old(self).spec_span())),
    {
        self.parse_inline(BaseCustomType::Collectable, ast)
    }

    /// A name of a collectable group used before its definition.
    pub fn parse_inline_collectable_group(&mut self, ast: &mut Ast) -> (r: Result<EarlyRefType, ParseErrorKind>)
        requires
            old(self).wf(),
            old(ast).wf(),
        ensures
            final(ast).spec_types() == old(ast).spec_types(),
            scopes_kept(old(ast).spec_scopes(), final(ast).spec_scopes()),
            parse_kept(*old(self), *final(self), *old(ast), *final(ast)),
            r matches Ok(t) ==> t.scope < final(ast).spec_scopes().len() && t.real_ty == BaseCustomType::CollectableGroup
                && stepped(*old(self), *final(self)) && old(self).spec_kind() == TokenKindView::Identifier(name_bytes(t.name)),
            old(self).spec_kind() is Identifier ==> (r matches Ok(t) && t.name.spec_span() == old(self).spec_span()
                && t.parent is None),
            !(old(self).spec_kind() is Identifier) ==> *final(self) == *old(self) && *final(ast) == *old(ast) && (
            r matches Err(e) && is_expected_error(e, match_text(TokenMatch::Identifier), old(self).spec_kind(), old(self).spec_span())),
    {
        self.parse_inline(BaseCustomType::CollectableGroup, ast)
    }

    fn parse_inline(&mut self, real_ty: BaseCustomType, ast: &mut Ast) -> (r: Result<EarlyRefType, ParseErrorKind>)
        requires
            old(self).wf(),
            old(ast).wf(),
        ensures
            parse_kept(*old(self), *final(self), *old(ast), *final(ast)),
            final(ast).spec_types() == old(ast).spec_types(),
            scopes_kept(old(ast).spec_scopes(), final(ast).spec_scopes()),
            r matches Ok(t) ==> t.scope < final(ast).spec_scopes().len() && t.real_ty == real_ty
                && stepped(*old(self), *final(self)) && old(self).spec_kind() == TokenKindView::Identifier(name_bytes(t.name)),
            old(self).spec_kind() is Identifier ==> (r matches Ok(t) && t.name.spec_span() == old(self).spec_span()
                && t.parent is None),
            !(old(self).spec_kind() is Identifier) ==> *final(self) == *old(self) && *final(ast) == *old(ast) && (
            r matches Err(e) && is_expected_error(e, match_text(TokenMatch::Identifier), old(self).spec_kind(), old(self).spec_span())),
    {
        proof {
            lemma_ast_grew_refl(*ast);
            lemma_scopes_kept_refl(ast.spec_scopes());
        }
        self.expect(Syntax::Match(TokenMatch::Identifier))?;
        let ty = EarlyRefType::new(self.string_token_value(), real_ty, ast);
        proof {
            assert(ast.spec_types().take(old(ast).spec_types().len() as int) =~= old(ast).spec_types());
            lemma_ast_grew_append(*old(ast), *ast);
        }
        self.advance()?;
        Ok(ty)
    }

    /// Reads one inline name and defines it as a type to be defined later.
    fn add_inline_item(&mut self, is_group: bool, ast: &mut Ast) -> (r: Result<(), ParseErrorKind>)
        requires
            old(self).wf(),
            old(ast).wf(),
        ensures
            parse_kept(*old(self), *final(self), *old(ast), *final(ast)),
            scopes_kept(old(ast).spec_scopes(), final(ast).spec_scopes()),
            r is Ok ==> final(self).spec_measure() < old(self).spec_measure(),
            old(self).spec_kind() matches TokenKindView::Identifier(name) ==> stepped(*old(self), *final(self))
                && inline_added(old(ast).spec_types(), final(ast).spec_types(), name, is_group, r),
            !(old(self).spec_kind() is Identifier) ==> *final(self) == *old(self) && *final(ast) == *old(ast)
                && (r matches Err(e) && is_mismatch(e)),
    {
        let item = if is_group {
            self.parse_inline_collectable_group(ast)?
        } else {
            self.parse_inline_collectable(ast)?
        };
        let ghost mid = *ast;
        let res = ast.insert_type(CustomType::EarlyRef(item));
        proof {
            lemma_scopes_kept_refl(ast.spec_scopes());
            lemma_scopes_kept_trans(old(ast).spec_scopes(), mid.spec_scopes(), ast.spec_scopes());
            if res is Ok {
                assert(ast.spec_types().take(mid.spec_types().len() as int) =~= mid.spec_types());
                lemma_ast_grew_append(mid, *ast);
            } else {
                lemma_ast_grew_refl(*ast);
            }
            lemma_ast_grew_trans(*old(ast), mid, *ast);
        }
        match res {
            Ok(_) => Ok(()),
            Err(e) => Err(ParseErrorKind::Ast(e)),
        }
    }

    /// `collectable <name>` or `collectable group <name>`, or a list of
    /// them in square brackets: each name is defined as a type to be
    /// defined later.
    #[verifier::rlimit(60)]
    pub fn parse_has_collectable_or_group(&mut self, is_group: bool, ast: &mut Ast) -> (r: Result<(), ParseErrorKind>)
        requires
            old(self).wf(),
            old(ast).wf(),
        ensures
            parse_kept(*old(self), *final(self), *old(ast), *final(ast)),
            scopes_kept(old(ast).spec_scopes(), final(ast).spec_scopes()),
            r is Ok ==> final(self).spec_measure() < old(self).spec_measure(),
            ({
                let k0 = old(self).spec_kind();
                let k1 = next_kind(old(self).spec_inp());
                let group_next = k1 == TokenKindView::Keyword(Keyword::Group);
                if k0 != TokenKindView::Keyword(Keyword::Collectable) {
                    *final(self) == *old(self) && *final(ast) == *old(ast) && (r matches Err(e) && is_expected_error(
                        e,
                        wanted_text(Wanted::Collectable),
                        k0,
                        old(self).spec_span(),
                    ))
                } else if is_group && !group_next {
                    *final(self) == *old(self) && *final(ast) == *old(ast) && (r matches Err(e) && is_expected_error(
                        e,
                        wanted_text(Wanted::Group),
                        k0,
                        old(self).spec_span(),
                    ))
                } else if !is_group && group_next {
                    *final(self) == *old(self) && *final(ast) == *old(ast) && (r matches Err(e) && is_unexpected_error(
                        e,
                        k0,
                        old(self).spec_span(),
                    ))
                } else {
                    let steps: nat = if is_group {
                        2
                    } else {
                        1
                    };
                    let st_list = after_advances(k0, old(self).spec_inp(), old(self).spec_span(), steps);
                    let k2 = st_list.0;
                    let t0 = old(ast).spec_types();
                    let t1 = final(ast).spec_types();
                    &&& k2 matches TokenKindView::Identifier(name) ==> inline_added(t0, t1, name, is_group, r)
                        && state_of(*final(self)) == step_state(st_list)
                    &&& (k2 == TokenKindView::LSquareBracket && names_fresh(
                        t0,
                        names_read(step_state(st_list)).0,
                        names_read(step_state(st_list)).0.len() as int,
                    ) && names_read(step_state(st_list)).1.0 == TokenKindView::RSquareBracket) ==> state_of(*final(self))
                        == step_state(names_read(step_state(st_list)).1)
                    &&& !(k2 is Identifier || k2 == TokenKindView::LSquareBracket) ==> t1 == t0 && r is Err
                    &&& k2 == TokenKindView::LSquareBracket ==> list_added(
                        t0,
                        t1,
                        names_read(step_state(st_list)).0,
                        names_read(step_state(st_list)).1,
                        is_group,
                        r,
                    )
                }
            }),
    {
        proof {
            lemma_ast_grew_refl(*ast);
            lemma_scopes_kept_refl(ast.spec_scopes());
            lemma_after_advances_step(self.spec_kind(), self.spec_inp(), self.spec_span(), 0);
        }
        let peek = self.peek()?;
        if !self.is(Syntax::Keyword(Keyword::Collectable)) {
            return Err(self.e_expected(Wanted::Collectable.as_bytes()));
        } else if is_group && !Syntax::Keyword(Keyword::Group).matches(&peek.kind) {
            return Err(self.e_expected(Wanted::Group.as_bytes()));
        } else if !is_group && Syntax::Keyword(Keyword::Group).matches(&peek.kind) {
            return Err(self.e_unexpected());
        }
        if is_group {
            self.advance_x(2)?;
        } else {
            self.advance()?;
        }
        let ghost k2 = self.spec_kind();
        let ghost st_list = state_of(*self);
        let ghost t0 = old(ast).spec_types();
        if self.is(Syntax::Kind(TokenKind::LSquareBracket)) {
            self.consume(Syntax::Kind(TokenKind::LSquareBracket))?;
            let ghost names = names_read(state_of(*self)).0;
            let ghost st_end = names_read(state_of(*self)).1;
            let ghost mut count: int = 0;
            proof {
                assert(names.skip(0) =~= names);
                assert(ast.spec_types().take(t0.len() as int) =~= t0);
            }
            loop
                invariant_except_break
                    names_read(state_of(*self)) == (names.skip(count), st_end),
                invariant
                    0 <= count <= names.len(),
                    names == names_read(step_state(st_list)).0,
                    st_end == names_read(step_state(st_list)).1,
                    t0 == old(ast).spec_types(),
                    scopes_kept(old(ast).spec_scopes(), ast.spec_scopes()),
                    names_fresh(t0, names, count),
                    inlines_added(t0, ast.spec_types(), names, count, is_group),
                    st_list == after_advances(
                        old(self).spec_kind(),
                        old(self).spec_inp(),
                        old(self).spec_span(),
                        if is_group {
                            2nat
                        } else {
                            1nat
                        },
                    ),
                    st_list.0 == k2,
                    k2 == TokenKindView::LSquareBracket,
                    k2 == after_advances(
                        old(self).spec_kind(),
                        old(self).spec_inp(),
                        old(self).spec_span(),
                        if is_group {
                            2nat
                        } else {
                            1nat
                        },
                    ).0,
                    self.wf(),
                    ast.wf(),
                    self.spec_filename() == old(self).spec_filename(),
                    self.spec_measure() < old(self).spec_measure(),
                    ast_grew(*old(ast), *ast),
                    old(self).spec_kind() == TokenKindView::Keyword(Keyword::Collectable),
                    is_group == (next_kind(old(self).spec_inp()) == TokenKindView::Keyword(Keyword::Group)),
            ensures
                count == names.len(),
                st_end == state_of(*self),
                names_fresh(t0, names, count),
                inlines_added(t0, ast.spec_types(), names, count, is_group),
                decreases self.spec_measure(),
            {
                let ghost before = *ast;
                let ghost st = state_of(*self);
                proof {
                    if st.0 is Identifier {
                        assert(names_read(st).0.len() >= 1 && names_read(st).0[0] == st.0->Identifier_0);
                        assert(names.skip(count)[0] == names[count]);
                        lemma_find_in_added(t0, before.spec_types(), names, count, is_group, names[count]);
                    } else {
                        assert(names.skip(count).len() == 0);
                    }
                }
                let added = optional(self.add_inline_item(is_group, ast));
                let ghost st1 = state_of(*self);
                proof {
                    lemma_ast_grew_trans(*old(ast), before, *ast);
                    lemma_scopes_kept_trans(old(ast).spec_scopes(), before.spec_scopes(), ast.spec_scopes());
                }
                match added {
                    Ok(Some(())) => {},
                    Ok(None) => break,
                    Err(e) => {
                        assert(names_fresh(t0, names, count) && !names_fresh(t0, names, count + 1));
                        assert(inlines_added(t0, ast.spec_types(), names, count, is_group));
                        assert(is_duplicate_of(e, names[count]));
                        assert(!names_fresh(t0, names, names.len() as int)) by {
                            if names_fresh(t0, names, names.len() as int) {
                                assert(names_fresh(t0, names, count + 1));
                            }
                        }
                        assert(list_added(t0, ast.spec_types(), names, st_end, is_group, Err(e))) by {
                            assert(0 <= count < names.len());
                        }
                        return Err(e);
                    },
                }
                proof {
                    let t_new = ast.spec_types();
                    assert(t_new.take(t0.len() as int) =~= t0) by {
                        assert(t_new.take(before.spec_types().len() as int) == before.spec_types());
                    }
                    assert forall|j: int| 0 <= j < count + 1 implies type_name_bytes(
                        #[trigger] t_new[t0.len() + j],
                    ) == names[j] && (t_new[t0.len() + j] matches Type::Custom(CustomType::EarlyRef(e))
                        && e.real_ty == inline_base(is_group)) by {
                        if j < count {
                            assert(t_new[t0.len() + j] == t_new.take(before.spec_types().len() as int)[t0.len()
                                + j]);
                        }
                    }
                    count = count + 1;
                }
                if !self.opt_consume(Syntax::Kind(TokenKind::Comma))? {
                    proof {
                        assert(names.skip(count - 1) =~= seq![names[count - 1]]);
                    }
                    break;
                }
                proof {
                    assert(st1 == step_state(st));
                    assert(state_of(*self) == step_state(st1));
                    assert(names_read(st) == (seq![names[count - 1]] + names_read(state_of(*self)).0, names_read(
                        state_of(*self),
                    ).1));
                    assert(names.skip(count - 1) =~= seq![names[count - 1]] + names.skip(count));
                    let rest = names_read(state_of(*self)).0;
                    assert((seq![names[count - 1]] + rest).skip(1) =~= rest);
                    assert((seq![names[count - 1]] + names.skip(count)).skip(1) =~= names.skip(count));
                }
            }
            self.consume(Syntax::Kind(TokenKind::RSquareBracket))
        } else {
            let ghost before = *ast;
            let r = self.add_inline_item(is_group, ast);
            proof {
                lemma_ast_grew_trans(*old(ast), before, *ast);
                lemma_scopes_kept_trans(old(ast).spec_scopes(), before.spec_scopes(), ast.spec_scopes());
            }
            r
        }
    }
}

/// The names listed from `st`, a comma between each two, and the place after
/// the list: it ends before the first token that is no name, or after a name
/// that no comma follows.
pub open spec fn names_read(st: (TokenKindView, Seq<u8>, TokenSpan)) -> (
    Seq<Seq<u8>>,
    (TokenKindView, Seq<u8>, TokenSpan),
)
    decreases state_measure(st),
{
    match st.0 {
        TokenKindView::Identifier(n) => {
            let st1 = step_state(st);
            if st1.0 == TokenKindView::Comma {
                let st2 = step_state(st1);
                if state_measure(st2) < state_measure(st) {
                    let (rest, st3) = names_read(st2);
                    (seq![n] + rest, st3)
                } else {
                    (seq![n], st2)
                }
            } else {
                (seq![n], st1)
            }
        },
        _ => (Seq::empty(), st),
    }
}

/// Whether the first `count` of `names` are new: no type of `t0` has one of
/// them as its name, and none of them repeats one before it.
pub open spec fn names_fresh(t0: Seq<Type>, names: Seq<Seq<u8>>, count: int) -> bool {
    forall|j: int|
        0 <= j < count ==> find_type(t0, #[trigger] names[j]) is None && forall|l: int|
            0 <= l < j ==> names[l] != names[j]
}

/// Whether the types `t1` are `t0` with a type to be defined later added
/// for each of the first `count` of `names`, in order.
pub open spec fn inlines_added(t0: Seq<Type>, t1: Seq<Type>, names: Seq<Seq<u8>>, count: int, is_group: bool) -> bool {
    &&& t1.len() == t0.len() + count
    &&& t1.take(t0.len() as int) == t0
    &&& forall|j: int|
        0 <= j < count ==> type_name_bytes(#[trigger] t1[t0.len() + j]) == names[j] && (t1[t0.len() + j] matches Type::Custom(CustomType::EarlyRef(e))
            && e.real_ty == inline_base(is_group))
}

/// The kind of type that a name listed after `has collectable` or `has
/// collectable group` stands for.
pub open spec fn inline_base(is_group: bool) -> BaseCustomType {
    if is_group {
        BaseCustomType::CollectableGroup
    } else {
        BaseCustomType::Collectable
    }
}

/// Whether the types `t1` and the result `r` are what a list of `names`
/// after `has collectable` gives, the list stopping at `st_end`: each new
/// name is added in turn, the first that is not new is refused as a
/// duplicate, and a list of new names is accepted when `]` closes it.
pub open spec fn list_added(
    t0: Seq<Type>,
    t1: Seq<Type>,
    names: Seq<Seq<u8>>,
    st_end: (TokenKindView, Seq<u8>, TokenSpan),
    is_group: bool,
    r: Result<(), ParseErrorKind>,
) -> bool {
    if names_fresh(t0, names, names.len() as int) {
        inlines_added(t0, t1, names, names.len() as int, is_group) && (r is Ok) == (st_end.0
            == TokenKindView::RSquareBracket)
    } else {
        exists|n: int|
            0 <= n < names.len() && #[trigger] names_fresh(t0, names, n) && !names_fresh(t0, names, n + 1)
                && inlines_added(t0, t1, names, n, is_group) && (r matches Err(e) && is_duplicate_of(e, names[n]))
    }
}

/// A name is found among types that `inlines_added` made exactly where it
/// is found among the types before or among the names added.
proof fn lemma_find_in_added(t0: Seq<Type>, t1: Seq<Type>, names: Seq<Seq<u8>>, count: int, is_group: bool, n: Seq<u8>)
    requires
        inlines_added(t0, t1, names, count, is_group),
        0 <= count <= names.len(),
    ensures
        (find_type(t1, n) is None) == (find_type(t0, n) is None && forall|l: int| 0 <= l < count ==> names[l] != n),
{
    if find_type(t0, n) is Some {
        let i = find_type(t0, n)->0;
        assert(t1[i] == t1.take(t0.len() as int)[i]);
        assert(type_name_bytes(t1[i]) == n);
    }
    if exists|l: int| 0 <= l < count && names[l] == n {
        let l = choose|l: int| 0 <= l < count && names[l] == n;
        assert(type_name_bytes(t1[t0.len() + l]) == n);
    }
    if find_type(t1, n) is Some {
        let i = find_type(t1, n)->0;
        if i < t0.len() {
            assert(t1[i] == t1.take(t0.len() as int)[i]);
            assert(type_name_bytes(t0[i]) == n);
        } else {
            let l = i - t0.len();
            assert(t1[t0.len() + l] == t1[i]);
            assert(names[l] == n);
        }
    }
}

/// Whether the types `t1` are `t0` with a type to be defined later named
/// `name` added, and `r` is `Ok`; or a type of that name was defined
/// already, nothing was added, and `r` says so.
pub open spec fn inline_added(t0: Seq<Type>, t1: Seq<Type>, name: Seq<u8>, is_group: bool, r: Result<(), ParseErrorKind>) -> bool {
    if find_type(t0, name) is None {
        &&& r is Ok
        &&& t1.len() == t0.len() + 1
        &&& t1.take(t0.len() as int) == t0
        &&& type_name_bytes(t1.last()) == name
        &&& t1.last() matches Type::Custom(CustomType::EarlyRef(e)) && e.real_ty == if is_group {
            BaseCustomType::CollectableGroup
        } else {
            BaseCustomType::Collectable
        }
    } else {
        t1 == t0 && (r matches Err(ParseErrorKind::Ast(AstErrorKind::DuplicateDefinition(n, _, _))) && n@ == name)
    }
}

/// The program `new` is `old` with an empty custom type of kind `b` named
/// `label` defined, and `r` is `Ok`; or a type of that name was defined
/// already, nothing changed, and `r` says so.
pub open spec fn defined_as(old: Ast, new: Ast, b: BaseCustomType, label: TokenValue<Vec<u8>>, r: Result<(), ParseErrorKind>) -> bool {
    &&& find_type(old.spec_types(), name_bytes(label)) is None ==> r is Ok && fresh_type_added(
        old,
        new,
        b,
        label,
    )
    &&& find_type(old.spec_types(), name_bytes(label)) is Some ==> new == old && (r matches Err(
        ParseErrorKind::Ast(e),
    ) && is_duplicate(e, name_bytes(label), label.spec_span(), base_type_name(b)))
}

/// The `has` block that the tokens from `st` start, if any: `redemptions`,
/// `upgrades`, `collectable` or `collectable group`.
pub open spec fn block_at(st: (TokenKindView, Seq<u8>, TokenSpan)) -> Option<HasBlock> {
    if st.0 == TokenKindView::Keyword(Keyword::Redemptions) {
        Some(HasBlock::Redemptions)
    } else if st.0 == TokenKindView::Keyword(Keyword::Upgrades) {
        Some(HasBlock::Upgrades)
    } else if st.0 == TokenKindView::Keyword(Keyword::Collectable) {
        if step_state(st).0 == TokenKindView::Keyword(Keyword::Group) {
            Some(HasBlock::CollectableGroup)
        } else {
            Some(HasBlock::Collectable)
        }
    } else {
        None
    }
}

/// The names that block `b` lists from `st`, where the block starts, and the
/// place after the block; `None` where its tokens are not a whole block. The
/// blocks of redemptions and upgrades list no names.
pub open spec fn block_names_read(st: (TokenKindView, Seq<u8>, TokenSpan), b: HasBlock) -> Option<
    (Seq<Seq<u8>>, (TokenKindView, Seq<u8>, TokenSpan)),
> {
    if b == HasBlock::Redemptions || b == HasBlock::Upgrades {
        Some((Seq::empty(), step_state(st)))
    } else {
        let st_list = if b == HasBlock::CollectableGroup {
            step_state(step_state(st))
        } else {
            step_state(st)
        };
        match st_list.0 {
            TokenKindView::Identifier(n) => Some((seq![n], step_state(st_list))),
            TokenKindView::LSquareBracket => {
                let (names, st_end) = names_read(step_state(st_list));
                if st_end.0 == TokenKindView::RSquareBracket {
                    Some((names, step_state(st_end)))
                } else {
                    None
                }
            },
            _ => None,
        }
    }
}

/// Whether `t1` is `t0` with its redemptions given (or, when `upgrades`,
/// its upgrades) and nothing else changed.
pub open spec fn list_given(t0: Type, t1: Type, upgrades: bool) -> bool {
    match (t0, t1) {
        (Type::Custom(CustomType::Collectable(c0)), Type::Custom(CustomType::Collectable(c1))) => if upgrades {
            c1.upgrades is Some && c1 == (Collectable { upgrades: c1.upgrades, ..c0 })
        } else {
            c1.redemptions is Some && c1 == (Collectable { redemptions: c1.redemptions, ..c0 })
        },
        (Type::Custom(CustomType::CollectableGroup(g0)), Type::Custom(CustomType::CollectableGroup(g1))) => if upgrades {
            g1.upgrades is Some && g1 == (CollectableGroup { upgrades: g1.upgrades, ..g0 })
        } else {
            g1.redemptions is Some && g1 == (CollectableGroup { redemptions: g1.redemptions, ..g0 })
        },
        _ => false,
    }
}

/// The names that block `b` lists from `st`.
pub open spec fn block_names(st: (TokenKindView, Seq<u8>, TokenSpan), b: HasBlock) -> Seq<Seq<u8>> {
    match block_names_read(st, b) {
        Some((names, _)) => names,
        None => Seq::empty(),
    }
}

/// The place after block `b` read from `st`.
pub open spec fn block_end(st: (TokenKindView, Seq<u8>, TokenSpan), b: HasBlock) -> (TokenKindView, Seq<u8>, TokenSpan) {
    match block_names_read(st, b) {
        Some((_, st_end)) => st_end,
        None => st,
    }
}

/// Whether block `b` starts at `st` and reads as a whole block whose names
/// are new among `types`.
pub open spec fn block_ready(st: (TokenKindView, Seq<u8>, TokenSpan), types: Seq<Type>, b: HasBlock) -> bool {
    &&& block_at(st) == Some(b)
    &&& block_names_read(st, b) is Some
    &&& names_fresh(types, block_names(st, b), block_names(st, b).len() as int)
}

/// One member read in the body of a collectable or a group: a property with
/// its name, the name of its type and the shape of its first value, or a
/// `has` block with the names it lists.
pub enum BodyItem {
    Property(Seq<u8>, Seq<u8>, Option<ExprShape>),
    Has(HasBlock, Seq<Seq<u8>>),
}

/// The type named by the tokens from `st` when it is a name, a primitive
/// keyword or `localized text`, and the place after it.
pub open spec fn plain_type_read(st: (TokenKindView, Seq<u8>, TokenSpan)) -> Option<(Seq<u8>, (TokenKindView, Seq<u8>, TokenSpan))> {
    if st.0 == TokenKindView::Keyword(Keyword::Array) {
        None
    } else {
        type_text_read(st)
    }
}

/// Whether block `b` may stand in the body of a collectable, or of a group
/// when `is_group`.
pub open spec fn block_allowed(b: HasBlock, is_group: bool) -> bool {
    is_group || b == HasBlock::Redemptions || b == HasBlock::Upgrades
}

/// The members read from `st` in the body of a collectable (a group when
/// `is_group`) whose blocks `used` are taken already, and the place where
/// the members end; `None` where the tokens hold a member that cannot be
/// read. A property is `property`, a name, a type that is no array, an
/// optional `=` and first value, and `;`; a block is `has`, a block of a
/// kind not taken yet, and `;`.
#[verifier::opaque]
pub closed spec fn body_items(st: (TokenKindView, Seq<u8>, TokenSpan), is_group: bool, used: Seq<HasBlock>) -> Option<
    (Seq<BodyItem>, (TokenKindView, Seq<u8>, TokenSpan)),
>
    decreases state_measure(st),
{
    if st.0 == TokenKindView::Keyword(Keyword::Property) {
        match prop_read(st) {
            Some((n, t, init, st4)) => if state_measure(st4) < state_measure(st) {
                match body_items(st4, is_group, used) {
                    Some((rest, st_end)) => Some((seq![BodyItem::Property(n, t, init)] + rest, st_end)),
                    None => None,
                }
            } else {
                None
            },
            None => None,
        }
    } else if st.0 == TokenKindView::Keyword(Keyword::Has) {
        match has_read(st, is_group, used) {
            Some((b, names, st3)) => if state_measure(st3) < state_measure(st) {
                match body_items(st3, is_group, used.push(b)) {
                    Some((rest, st_end)) => Some((seq![BodyItem::Has(b, names)] + rest, st_end)),
                    None => None,
                }
            } else {
                None
            },
            None => None,
        }
    } else {
        Some((Seq::empty(), st))
    }
}

/// A property read from `st`, at `property`: its name, the name of its
/// type (no array), the shape of its first value where `=` gives one, and
/// the place after its `;`.
pub open spec fn prop_read(st: (TokenKindView, Seq<u8>, TokenSpan)) -> Option<
    (Seq<u8>, Seq<u8>, Option<ExprShape>, (TokenKindView, Seq<u8>, TokenSpan)),
> {
    let st1 = step_state(st);
    match st1.0 {
        TokenKindView::Identifier(n) => match plain_type_read(step_state(st1)) {
            Some((t, st2)) => {
                let (init, st3) = if st2.0 == TokenKindView::Equal {
                    read_prec(step_state(st2), 0)
                } else {
                    (None, st2)
                };
                if st2.0 == TokenKindView::Equal && init is None {
                    None
                } else if st3.0 == TokenKindView::Semicolon {
                    Some((n, t, init, step_state(st3)))
                } else {
                    None
                }
            },
            None => None,
        },
        _ => None,
    }
}

/// A block read from `st`, at `has`, in the body of a collectable (a group
/// when `is_group`) whose blocks `used` are taken: its kind, the names it
/// lists and the place after its `;`.
pub open spec fn has_read(st: (TokenKindView, Seq<u8>, TokenSpan), is_group: bool, used: Seq<HasBlock>) -> Option<
    (HasBlock, Seq<Seq<u8>>, (TokenKindView, Seq<u8>, TokenSpan)),
> {
    let st1 = step_state(st);
    match block_at(st1) {
        Some(b) => if block_allowed(b, is_group) && !used.contains(b) {
            match block_names_read(st1, b) {
                Some((names, st2)) => if st2.0 == TokenKindView::Semicolon {
                    Some((b, names, step_state(st2)))
                } else {
                    None
                },
                None => None,
            }
        } else {
            None
        },
        None => None,
    }
}

/// The body of a collectable (a group when `is_group`) read from `st`: its
/// grouping, `has amount ;` or none, then its members; and the place where
/// the body ends, before `end`.
pub open spec fn body_read(st: (TokenKindView, Seq<u8>, TokenSpan), is_group: bool) -> Option<
    (AutoGrouping, Seq<BodyItem>, (TokenKindView, Seq<u8>, TokenSpan)),
> {
    let st1 = step_state(st);
    let st2 = step_state(st1);
    let (g, st_items) = if st.0 == TokenKindView::Keyword(Keyword::Has) && st1.0 == TokenKindView::Keyword(
        Keyword::Amount,
    ) {
        if st2.0 == TokenKindView::Semicolon {
            (Some(AutoGrouping::ByAmount), step_state(st2))
        } else {
            (None, st)
        }
    } else {
        (Some(AutoGrouping::Inherit), st)
    };
    match g {
        Some(g) => match body_items(st_items, is_group, Seq::empty()) {
            Some((items, st_end)) => Some((g, items, st_end)),
            None => None,
        },
        None => None,
    }
}

/// The properties among `items`, in order: name, type name and first value.
pub open spec fn items_props(items: Seq<BodyItem>) -> Seq<(Seq<u8>, Seq<u8>, Option<ExprShape>)>
    decreases items.len(),
{
    if items.len() == 0 {
        Seq::empty()
    } else {
        match items.last() {
            BodyItem::Property(n, t, i) => items_props(items.drop_last()).push((n, t, i)),
            BodyItem::Has(_, _) => items_props(items.drop_last()),
        }
    }
}

/// The names that the blocks among `items` list, in order, each with
/// whether it names a group.
pub open spec fn items_names(items: Seq<BodyItem>) -> Seq<(Seq<u8>, bool)>
    decreases items.len(),
{
    if items.len() == 0 {
        Seq::empty()
    } else {
        match items.last() {
            BodyItem::Property(_, _, _) => items_names(items.drop_last()),
            BodyItem::Has(b, names) => items_names(items.drop_last()) + names.map_values(
                |n: Seq<u8>| (n, b == HasBlock::CollectableGroup),
            ),
        }
    }
}

/// The blocks among `items`, in order.
pub open spec fn items_blocks(items: Seq<BodyItem>) -> Seq<HasBlock>
    decreases items.len(),
{
    if items.len() == 0 {
        Seq::empty()
    } else {
        match items.last() {
            BodyItem::Property(_, _, _) => items_blocks(items.drop_last()),
            BodyItem::Has(b, _) => items_blocks(items.drop_last()).push(b),
        }
    }
}

/// Whether the members `items` of a body for the type named `label` can
/// all be added to the program of types `t0` and scopes `s0`: no property
/// repeats a name of the global scope or of a property before it, and no
/// listed name is a type already, the label, or a name listed before it.
#[verifier::opaque]
pub closed spec fn body_fresh(t0: Seq<Type>, s0: Seq<Scope>, label: Seq<u8>, items: Seq<BodyItem>) -> bool {
    let props = items_props(items);
    let names = items_names(items);
    &&& forall|j: int|
        0 <= j < props.len() ==> !local_has(s0[GLOBAL_SCOPE as int], (#[trigger] props[j]).0) && forall|l: int|
            0 <= l < j ==> props[l].0 != props[j].0
    &&& forall|j: int|
        0 <= j < names.len() ==> find_type(t0, (#[trigger] names[j]).0) is None && names[j].0 != label
            && forall|l: int| 0 <= l < j ==> names[l].0 != names[j].0
}

/// Whether `t` is a collectable (or group, by `b`) named `label` with the
/// grouping `g`, its redemptions and upgrades given or not, and its scope
/// at `scope`.
pub open spec fn body_type_is(
    t: Type,
    b: BaseCustomType,
    label: Seq<u8>,
    g: AutoGrouping,
    red: bool,
    upg: bool,
    scope: int,
) -> bool {
    match t {
        Type::Custom(CustomType::Collectable(c)) => b == BaseCustomType::Collectable && name_bytes(c.name) == label
            && c.auto_grouping == g && (c.redemptions is Some) == red && (c.upgrades is Some) == upg && c.scope
            == scope,
        Type::Custom(CustomType::CollectableGroup(c)) => b == BaseCustomType::CollectableGroup && name_bytes(c.name)
            == label && c.auto_grouping == g && (c.redemptions is Some) == red && (c.upgrades is Some) == upg
            && c.scope == scope,
        _ => false,
    }
}

/// Whether the variables `vars` are the properties `props`, in order, their
/// first values read in the scope `scope` of kind `skind`.
pub open spec fn props_are(
    vars: Seq<Variable>,
    props: Seq<(Seq<u8>, Seq<u8>, Option<ExprShape>)>,
    scope: usize,
    skind: ScopeKind,
) -> bool {
    &&& vars.len() == props.len()
    &&& forall|j: int|
        0 <= j < props.len() ==> var_name(#[trigger] vars[j]) == props[j].0 && name_bytes(vars[j].ty.name)
            == props[j].1 && match props[j].2 {
            None => vars[j].initial is None,
            Some(sh) => vars[j].initial matches Some(e) && expr_is(e, sh, scope, skind),
        }
}

/// Whether the program of types `t1` and scopes `s1` is the program of
/// types `t0` and scopes `s0` with the type of base `b` named `label`
/// added, with the grouping `g` and the members `items`: its properties in
/// its scope, and a type to be defined later for each listed name.
#[verifier::opaque]
pub closed spec fn body_added(
    t0: Seq<Type>,
    s0: Seq<Scope>,
    t1: Seq<Type>,
    s1: Seq<Scope>,
    b: BaseCustomType,
    label: Seq<u8>,
    g: AutoGrouping,
    items: Seq<BodyItem>,
) -> bool {
    let names = items_names(items);
    let blocks = items_blocks(items);
    let n = t0.len();
    &&& t1.len() == n + 1 + names.len()
    &&& t1.take(n as int) == t0
    &&& body_type_is(
        t1[n as int],
        b,
        label,
        g,
        blocks.contains(HasBlock::Redemptions),
        blocks.contains(HasBlock::Upgrades),
        s0.len() as int,
    )
    &&& forall|j: int|
        0 <= j < names.len() ==> type_name_bytes(#[trigger] t1[n + 1 + j]) == names[j].0 && (t1[n + 1
            + j] matches Type::Custom(CustomType::EarlyRef(e)) && e.real_ty == inline_base(names[j].1))
    &&& s1.len() > s0.len()
    &&& s1.take(s0.len() as int) == s0
    &&& s1[s0.len() as int].parent == Some(GLOBAL_SCOPE)
    &&& props_are(s1[s0.len() as int].vars@, items_props(items), s0.len() as usize, s1[s0.len() as int].kind)
}

/// The members read before the `m`th give a prefix of what all of them
/// give.
proof fn lemma_items_prefix(items: Seq<BodyItem>, m: int)
    requires
        0 <= m <= items.len(),
    ensures
        items_names(items.take(m)) == items_names(items).take(items_names(items.take(m)).len() as int),
        items_names(items.take(m)).len() <= items_names(items).len(),
        items_props(items.take(m)) == items_props(items).take(items_props(items.take(m)).len() as int),
        items_props(items.take(m)).len() <= items_props(items).len(),
    decreases items.len(),
{
    if m == items.len() {
        assert(items.take(m) =~= items);
        assert(items_names(items).take(items_names(items).len() as int) =~= items_names(items));
        assert(items_props(items).take(items_props(items).len() as int) =~= items_props(items));
    } else {
        let d = items.drop_last();
        assert(items.take(m) =~= d.take(m));
        lemma_items_prefix(d, m);
        let a = items_names(d.take(m));
        let bn = items_names(d);
        assert(items_names(items).take(a.len() as int) =~= bn.take(a.len() as int));
        let ap = items_props(d.take(m));
        let bp = items_props(d);
        assert(items_props(items).take(ap.len() as int) =~= bp.take(ap.len() as int));
    }
}

/// What the `k`th member, a property, adds keeps the body added.
proof fn lemma_body_prop_step(
    t0: Seq<Type>,
    s0: Seq<Scope>,
    t: Seq<Type>,
    s: Seq<Scope>,
    s2: Seq<Scope>,
    b: BaseCustomType,
    label: Seq<u8>,
    g: AutoGrouping,
    items: Seq<BodyItem>,
    k: int,
    var: Variable,
)
    requires
        0 <= k < items.len(),
        body_added(t0, s0, t, s, b, label, g, items.take(k)),
        var_added(s, s2, s0.len() as int, var),
        items[k] matches BodyItem::Property(n, ty, init) && prop_is(var, n, ty, init, s0.len() as usize, s[s0.len() as int].kind),
    ensures
        body_added(t0, s0, t, s2, b, label, g, items.take(k + 1)),
{
    reveal(body_added);
    let p = items.take(k);
    let q = items.take(k + 1);
    assert(q.drop_last() =~= p);
    assert(q.last() == items[k]);
    assert(s2.take(s0.len() as int) =~= s0) by {
        assert forall|i: int| 0 <= i < s0.len() implies s2.take(s0.len() as int)[i] == s0[i] by {
            assert(s.take(s0.len() as int)[i] == s0[i]);
        }
    }
    let props = items_props(q);
    assert(props == items_props(p).push(props.last()));
    assert forall|j: int| 0 <= j < props.len() implies var_name(#[trigger] s2[s0.len() as int].vars@[j])
        == props[j].0 && name_bytes(s2[s0.len() as int].vars@[j].ty.name) == props[j].1 && match props[j].2 {
        None => s2[s0.len() as int].vars@[j].initial is None,
        Some(sh) => s2[s0.len() as int].vars@[j].initial matches Some(e) && expr_is(
            e,
            sh,
            s0.len() as usize,
            s2[s0.len() as int].kind,
        ),
    } by {
        if j < props.len() - 1 {
            assert(s2[s0.len() as int].vars@[j] == s[s0.len() as int].vars@[j]);
            assert(props[j] == items_props(p)[j]);
        }
    }
}

/// What the `k`th member, a block, adds keeps the body added.
proof fn lemma_body_has_step(
    t0: Seq<Type>,
    s0: Seq<Scope>,
    t: Seq<Type>,
    s: Seq<Scope>,
    t2: Seq<Type>,
    s2: Seq<Scope>,
    b: BaseCustomType,
    label: Seq<u8>,
    g: AutoGrouping,
    items: Seq<BodyItem>,
    k: int,
)
    requires
        0 <= k < items.len(),
        body_added(t0, s0, t, s, b, label, g, items.take(k)),
        scopes_kept(s, s2),
        items[k] matches BodyItem::Has(hb, names) && block_effect(t, t2, t0.len() as int, hb, names) && ((hb
            == HasBlock::Redemptions || hb == HasBlock::Upgrades) ==> names.len() == 0),
    ensures
        body_added(t0, s0, t2, s2, b, label, g, items.take(k + 1)),
{
    reveal(body_added);
    assert(scopes_kept(s0, s));
    lemma_scopes_kept_trans(s0, s, s2);
    assert(s2[s0.len() as int] == s2.take(s.len() as int)[s0.len() as int]);
    let p = items.take(k);
    let q = items.take(k + 1);
    assert(q.drop_last() =~= p);
    assert(q.last() == items[k]);
    let n0 = t0.len();
    let (hb, names) = match items[k] {
        BodyItem::Has(hb, names) => (hb, names),
        _ => (HasBlock::Redemptions, Seq::empty()),
    };
    let old_names = items_names(p);
    let new_names = items_names(q);
    assert(items_props(q) == items_props(p));
    if hb == HasBlock::Collectable || hb == HasBlock::CollectableGroup {
        let mapped = names.map_values(|x: Seq<u8>| (x, hb == HasBlock::CollectableGroup));
        assert(new_names == old_names + mapped);
        assert(items_blocks(q) == items_blocks(p).push(hb));
        assert(items_blocks(q).contains(HasBlock::Redemptions) == items_blocks(p).contains(HasBlock::Redemptions)) by {
            if items_blocks(q).contains(HasBlock::Redemptions) {
                let i = choose|i: int| 0 <= i < items_blocks(q).len() && items_blocks(q)[i] == HasBlock::Redemptions;
                assert(items_blocks(p)[i] == HasBlock::Redemptions);
            }
            if items_blocks(p).contains(HasBlock::Redemptions) {
                let i = choose|i: int| 0 <= i < items_blocks(p).len() && items_blocks(p)[i] == HasBlock::Redemptions;
                assert(items_blocks(q)[i] == HasBlock::Redemptions);
            }
        }
        assert(items_blocks(q).contains(HasBlock::Upgrades) == items_blocks(p).contains(HasBlock::Upgrades)) by {
            if items_blocks(q).contains(HasBlock::Upgrades) {
                let i = choose|i: int| 0 <= i < items_blocks(q).len() && items_blocks(q)[i] == HasBlock::Upgrades;
                assert(items_blocks(p)[i] == HasBlock::Upgrades);
            }
            if items_blocks(p).contains(HasBlock::Upgrades) {
                let i = choose|i: int| 0 <= i < items_blocks(p).len() && items_blocks(p)[i] == HasBlock::Upgrades;
                assert(items_blocks(q)[i] == HasBlock::Upgrades);
            }
        }
        assert(t2.take(n0 as int) =~= t0) by {
            assert forall|i: int| 0 <= i < n0 implies t2.take(n0 as int)[i] == t0[i] by {
                assert(t2[i] == t2.take(t.len() as int)[i]);
                assert(t.take(n0 as int)[i] == t0[i]);
            }
        }
        assert(t2[n0 as int] == t2.take(t.len() as int)[n0 as int]);
        assert forall|j: int| 0 <= j < new_names.len() implies type_name_bytes(#[trigger] t2[n0 + 1 + j])
            == new_names[j].0 && (t2[n0 + 1 + j] matches Type::Custom(CustomType::EarlyRef(e)) && e.real_ty
            == inline_base(new_names[j].1)) by {
            if j < old_names.len() {
                assert(t2[n0 + 1 + j] == t2.take(t.len() as int)[n0 + 1 + j]);
                assert(new_names[j] == old_names[j]);
            } else {
                let jj = j - old_names.len();
                assert(t2[n0 + 1 + j] == t2[t.len() + jj]);
                assert(new_names[j] == mapped[jj]);
            }
        }
    } else {
        assert(names.map_values(|x: Seq<u8>| (x, hb == HasBlock::CollectableGroup)) =~= Seq::<(Seq<u8>, bool)>::empty());
        assert(new_names =~= old_names);
        assert(items_blocks(q) == items_blocks(p).push(hb));
        assert forall|x: HasBlock| x != hb implies items_blocks(q).contains(x) == items_blocks(p).contains(x) by {
            if items_blocks(q).contains(x) {
                let i = choose|i: int| 0 <= i < items_blocks(q).len() && items_blocks(q)[i] == x;
                assert(items_blocks(p)[i] == x);
            }
            if items_blocks(p).contains(x) {
                let i = choose|i: int| 0 <= i < items_blocks(p).len() && items_blocks(p)[i] == x;
                assert(items_blocks(q)[i] == x);
            }
        }
        assert(items_blocks(q)[items_blocks(q).len() - 1] == hb);
        assert(t2.take(n0 as int) =~= t0) by {
            assert forall|i: int| 0 <= i < n0 implies t2.take(n0 as int)[i] == t0[i] by {
                assert(t.take(n0 as int)[i] == t0[i]);
            }
        }
        assert forall|j: int| 0 <= j < new_names.len() implies type_name_bytes(#[trigger] t2[n0 + 1 + j])
            == new_names[j].0 && (t2[n0 + 1 + j] matches Type::Custom(CustomType::EarlyRef(e)) && e.real_ty
            == inline_base(new_names[j].1)) by {
            assert(t2[n0 + 1 + j] == t[n0 + 1 + j]);
        }
    }
}

/// The names of a block of a body whose members can all be added are new
/// among the types at the point where the block is read.
proof fn lemma_block_fresh(
    t0: Seq<Type>,
    s0: Seq<Scope>,
    t: Seq<Type>,
    s: Seq<Scope>,
    b: BaseCustomType,
    label: Seq<u8>,
    g: AutoGrouping,
    items: Seq<BodyItem>,
    k: int,
)
    requires
        0 <= k < items.len(),
        body_added(t0, s0, t, s, b, label, g, items.take(k)),
        body_fresh(t0, s0, label, items),
        items[k] is Has,
    ensures
        names_fresh(t, items[k]->Has_1, items[k]->Has_1.len() as int),
{
    reveal(body_added);
    reveal(body_fresh);
    let names = items[k]->Has_1;
    let hb = items[k]->Has_0;
    let all = items_names(items);
    let p = items.take(k);
    let q = items.take(k + 1);
    assert(q.drop_last() =~= p);
    assert(q.last() == items[k]);
    lemma_items_prefix(items, k);
    lemma_items_prefix(items, k + 1);
    let old_names = items_names(p);
    let a = old_names.len() as int;
    let mapped = names.map_values(|x: Seq<u8>| (x, hb == HasBlock::CollectableGroup));
    assert(items_names(q) == old_names + mapped);
    assert forall|j: int| 0 <= j < names.len() implies names[j] == all[a + j].0 by {
        assert(items_names(q)[a + j] == mapped[j]);
        assert(items_names(q)[a + j] == all[a + j]);
    }
    assert forall|m: int| 0 <= m < a implies old_names[m] == all[m] by {
        assert(all.take(a)[m] == all[m]);
    }
    let n0 = t0.len() as int;
    assert forall|j: int| 0 <= j < names.len() implies find_type(t, #[trigger] names[j]) is None && forall|l: int|
        0 <= l < j ==> names[l] != names[j] by {
        let nm = names[j];
        assert(nm == all[a + j].0);
        assert(find_type(t0, all[a + j].0) is None);
        if find_type(t, nm) is Some {
            let i = find_type(t, nm)->0;
            if i < n0 {
                assert(t[i] == t.take(n0)[i]);
                assert(type_name_bytes(t0[i]) == nm);
            } else if i == n0 {
                assert(type_name_bytes(t[n0]) == label);
            } else {
                let m = i - n0 - 1;
                assert(t[n0 + 1 + m] == t[i]);
                assert(old_names[m].0 == nm);
                assert(all[m].0 == all[a + j].0);
            }
        }
        assert forall|l: int| 0 <= l < j implies names[l] != names[j] by {
            assert(names[l] == all[a + l].0);
        }
    }
}

/// The blocks that a body of a collectable (a group when `is_group`) may
/// hold, in the order they are tried.
pub open spec fn all_blocks(is_group: bool) -> Seq<HasBlock> {
    if is_group {
        seq![HasBlock::Collectable, HasBlock::CollectableGroup, HasBlock::Redemptions, HasBlock::Upgrades]
    } else {
        seq![HasBlock::Redemptions, HasBlock::Upgrades]
    }
}

/// A block that may stand in the body and is not taken yet is among the
/// blocks left to try.
proof fn lemma_block_left_to_try(v: Seq<HasBlock>, split: int, used: Seq<HasBlock>, is_group: bool, x: HasBlock)
    requires
        0 <= split <= v.len(),
        v.to_multiset() == all_blocks(is_group).to_multiset(),
        v.take(split).to_multiset() == used.to_multiset(),
        block_allowed(x, is_group),
        !used.contains(x),
    ensures
        v.skip(split).contains(x),
{
    broadcast use vstd::seq_lib::to_multiset_contains;
    broadcast use vstd::seq_lib::lemma_multiset_commutative;
    broadcast use vstd::multiset::group_multiset_axioms;

    assert(v.take(split) + v.skip(split) =~= v);
    assert(all_blocks(is_group).contains(x)) by {
        if is_group {
            match x {
                HasBlock::Collectable => assert(all_blocks(is_group)[0] == x),
                HasBlock::CollectableGroup => assert(all_blocks(is_group)[1] == x),
                HasBlock::Redemptions => assert(all_blocks(is_group)[2] == x),
                HasBlock::Upgrades => assert(all_blocks(is_group)[3] == x),
            }
        } else if x == HasBlock::Redemptions {
            assert(all_blocks(is_group)[0] == x);
        } else {
            assert(all_blocks(is_group)[1] == x);
        }
    }
    assert(v.to_multiset().count(x) > 0);
    assert(used.to_multiset().count(x) == 0);
    assert(v.to_multiset() == v.take(split).to_multiset().add(v.skip(split).to_multiset()));
    assert(v.skip(split).to_multiset().count(x) > 0);
}

/// A property name new to the global scope and to the properties before it
/// is not found from the scope of the body.
proof fn lemma_prop_not_found(s0: Seq<Scope>, sc: Seq<Scope>, n: Seq<u8>)
    requires
        0 < s0.len(),
        sc.len() > s0.len(),
        sc.take(s0.len() as int) == s0,
        sc[s0.len() as int].parent == Some(GLOBAL_SCOPE),
        !local_has(s0[GLOBAL_SCOPE as int], n),
        forall|i: int| 0 <= i < sc[s0.len() as int].vars@.len() ==> var_name(#[trigger] sc[s0.len() as int].vars@[i]) != n,
    ensures
        !scope_has(sc, s0.len() as int, n),
{
    assert(sc[0] == sc.take(s0.len() as int)[0]);
    assert(!scope_has(sc, 0, n));
    assert(!local_has(sc[s0.len() as int], n));
}

/// The first scope of a collectable or a group.
pub open spec fn first_scope(t: Type) -> int {
    match t {
        Type::Custom(CustomType::Collectable(c)) => c.scope as int,
        Type::Custom(CustomType::CollectableGroup(g)) => g.scope as int,
        _ => 0,
    }
}

/// Whether `v` is the property named `n` of the type named `t`, with the
/// first value of shape `init` read in the scope `scope` of kind `skind`.
pub open spec fn prop_is(v: Variable, n: Seq<u8>, t: Seq<u8>, init: Option<ExprShape>, scope: usize, skind: ScopeKind) -> bool {
    &&& var_name(v) == n
    &&& name_bytes(v.ty.name) == t
    &&& match init {
        None => v.initial is None,
        Some(sh) => v.initial matches Some(e) && expr_is(e, sh, scope, skind),
    }
}

/// A type just defined for a body, given its grouping, is the body added
/// with no members yet.
proof fn lemma_body_start(
    t0: Seq<Type>,
    s0: Seq<Scope>,
    tb: Seq<Type>,
    t1: Seq<Type>,
    sb: Seq<Scope>,
    b: BaseCustomType,
    label: TokenValue<Vec<u8>>,
    g: AutoGrouping,
)
    requires
        b == BaseCustomType::Collectable || b == BaseCustomType::CollectableGroup,
        s0.len() <= usize::MAX,
        tb.len() == t0.len() + 1,
        tb.take(t0.len() as int) == t0,
        tb[t0.len() as int] matches Type::Custom(x) && is_fresh_custom(x, b, label, s0.len() as usize, t0.len() as usize),
        t1 == tb.update(
            t0.len() as int,
            match tb[t0.len() as int] {
                Type::Custom(CustomType::Collectable(c)) => Type::Custom(
                    CustomType::Collectable(Collectable { auto_grouping: g, ..c }),
                ),
                Type::Custom(CustomType::CollectableGroup(c)) => Type::Custom(
                    CustomType::CollectableGroup(CollectableGroup { auto_grouping: g, ..c }),
                ),
                t => t,
            },
        ),
        sb.len() > s0.len(),
        sb.take(s0.len() as int) == s0,
        sb[s0.len() as int].parent == Some(GLOBAL_SCOPE),
        sb[s0.len() as int].vars@.len() == 0,
    ensures
        body_added(t0, s0, t1, sb, b, name_bytes(label), g, Seq::empty()),
{
    reveal(body_added);
    let e = Seq::<BodyItem>::empty();
    assert(items_names(e) =~= Seq::<(Seq<u8>, bool)>::empty());
    assert(items_blocks(e) =~= Seq::<HasBlock>::empty());
    assert(items_props(e) =~= Seq::<(Seq<u8>, Seq<u8>, Option<ExprShape>)>::empty());
    assert(t1.take(t0.len() as int) =~= t0) by {
        assert forall|i: int| 0 <= i < t0.len() implies t1.take(t0.len() as int)[i] == t0[i] by {
            assert(tb.take(t0.len() as int)[i] == t0[i]);
        }
    }
    let n = t0.len() as int;
    match tb[n] {
        Type::Custom(CustomType::Collectable(c)) => {
            assert(b == BaseCustomType::Collectable);
            assert(t1[n] == Type::Custom(CustomType::Collectable(Collectable { auto_grouping: g, ..c })));
        },
        Type::Custom(CustomType::CollectableGroup(c)) => {
            assert(b == BaseCustomType::CollectableGroup);
            assert(t1[n] == Type::Custom(CustomType::CollectableGroup(CollectableGroup { auto_grouping: g, ..c })));
        },
        _ => {},
    }
    assert(body_type_is(t1[n], b, name_bytes(label), g, false, false, s0.len() as int));
    assert(!items_blocks(e).contains(HasBlock::Redemptions));
    assert(!items_blocks(e).contains(HasBlock::Upgrades));
}

/// What the body added so far says of the type's scope and its
/// properties, and of the property about to be read.
proof fn lemma_body_added_facts(
    t0: Seq<Type>,
    s0: Seq<Scope>,
    t: Seq<Type>,
    s: Seq<Scope>,
    b: BaseCustomType,
    label: Seq<u8>,
    g: AutoGrouping,
    items: Seq<BodyItem>,
    k: int,
)
    requires
        0 <= k < items.len(),
        0 < s0.len(),
        body_added(t0, s0, t, s, b, label, g, items.take(k)),
        body_fresh(t0, s0, label, items),
        items[k] is Property,
    ensures
        first_scope(t[t0.len() as int]) == s0.len(),
        !scope_has(s, s0.len() as int, items[k]->Property_0),
{
    reveal(body_added);
    reveal(body_fresh);
    let n = items[k]->Property_0;
    lemma_items_prefix(items, k);
    let props = items_props(items);
    let pk = items_props(items.take(k));
    let q = items.take(k + 1);
    assert(q.drop_last() =~= items.take(k));
    assert(q.last() == items[k]);
    lemma_items_prefix(items, k + 1);
    assert(items_props(q) == pk.push(items_props(q).last()));
    assert(items_props(q)[pk.len() as int] == props[pk.len() as int]);
    assert(props[pk.len() as int].0 == n);
    assert forall|i: int| 0 <= i < s[s0.len() as int].vars@.len() implies var_name(
        #[trigger] s[s0.len() as int].vars@[i],
    ) != n by {
        assert(pk[i] == props[i]);
    }
    lemma_prop_not_found(s0, s, n);
}

/// The members of a body read, or none where it could not be read.
pub open spec fn read_members(o: Option<(Seq<BodyItem>, (TokenKindView, Seq<u8>, TokenSpan))>) -> Seq<BodyItem> {
    match o {
        Some((items, _)) => items,
        None => Seq::empty(),
    }
}

/// Where a body read ends, or an arbitrary place where it could not be
/// read.
pub open spec fn read_stop(o: Option<(Seq<BodyItem>, (TokenKindView, Seq<u8>, TokenSpan))>) -> (TokenKindView, Seq<u8>, TokenSpan) {
    match o {
        Some((_, st)) => st,
        None => arbitrary(),
    }
}

/// A body whose next member is a property reads on after it.
proof fn lemma_body_items_prop(st: (TokenKindView, Seq<u8>, TokenSpan), is_group: bool, used: Seq<HasBlock>)
    requires
        st.0 == TokenKindView::Keyword(Keyword::Property),
        body_items(st, is_group, used) is Some,
    ensures
        prop_read(st) is Some,
        ({
            let (n, t, init, st4) = prop_read(st)->0;
            body_items(st4, is_group, used) is Some && read_members(body_items(st, is_group, used)) == seq![
                BodyItem::Property(n, t, init),
            ] + read_members(body_items(st4, is_group, used)) && read_stop(body_items(st, is_group, used)) == read_stop(body_items(
                st4,
                is_group,
                used,
            ))
        }),
{
    reveal(body_items);
}

/// A body whose next member is a block reads on after it.
proof fn lemma_body_items_has(st: (TokenKindView, Seq<u8>, TokenSpan), is_group: bool, used: Seq<HasBlock>)
    requires
        st.0 == TokenKindView::Keyword(Keyword::Has),
        body_items(st, is_group, used) is Some,
    ensures
        has_read(st, is_group, used) is Some,
        ({
            let (hb, names, st3) = has_read(st, is_group, used)->0;
            body_items(st3, is_group, used.push(hb)) is Some && read_members(body_items(st, is_group, used)) == seq![
                BodyItem::Has(hb, names),
            ] + read_members(body_items(st3, is_group, used.push(hb))) && read_stop(body_items(st, is_group, used))
                == read_stop(body_items(st3, is_group, used.push(hb)))
        }),
{
    reveal(body_items);
}

/// A body whose next token starts no member ends there.
proof fn lemma_body_items_end(st: (TokenKindView, Seq<u8>, TokenSpan), is_group: bool, used: Seq<HasBlock>)
    requires
        st.0 != TokenKindView::Keyword(Keyword::Property),
        st.0 != TokenKindView::Keyword(Keyword::Has),
    ensures
        body_items(st, is_group, used) == Some((Seq::<BodyItem>::empty(), st)),
{
    reveal(body_items);
}

/// What running block `b` for the type at `target` does to the types: a
/// type to be defined later for each listed name, or the redemptions or
/// upgrades of the type given.
pub open spec fn block_effect(t0: Seq<Type>, t1: Seq<Type>, target: int, b: HasBlock, names: Seq<Seq<u8>>) -> bool {
    match b {
        HasBlock::Collectable => inlines_added(t0, t1, names, names.len() as int, false),
        HasBlock::CollectableGroup => inlines_added(t0, t1, names, names.len() as int, true),
        _ => {
            &&& t1.len() == t0.len()
            &&& forall|i: int| 0 <= i < t0.len() && i != target ==> t1[i] == t0[i]
            &&& list_given(t0[target], t1[target], b == HasBlock::Upgrades)
        },
    }
}

impl<'p> Parser<'p> {
    /// Defines an empty custom type of kind `b` by name.
    fn define_type(&mut self, b: BaseCustomType, label: TokenValue<Vec<u8>>, ast: &mut Ast) -> (r: Result<(), ParseErrorKind>)
        requires
            old(self).wf(),
            old(ast).wf(),
            b != BaseCustomType::Array,
            b != BaseCustomType::EarlyRef,
        ensures
            parse_kept(*old(self), *final(self), *old(ast), *final(ast)),
            *final(self) == *old(self),
            defined_as(*old(ast), *final(ast), b, label, r),
    {
        let res = ast.insert_fresh(b, label);
        proof {
            if res is Ok {
                lemma_ast_grew_append(*old(ast), *ast);
            } else {
                assert(*ast == *old(ast));
                lemma_ast_grew_refl(*ast);
            }
        }
        match res {
            Ok(_) => Ok(()),
            Err(e) => Err(ParseErrorKind::Ast(e)),
        }
    }

    /// The body of a user type, which holds nothing yet.
    fn parse_user(&mut self, label: TokenValue<Vec<u8>>, ast: &mut Ast) -> (r: Result<(), ParseErrorKind>)
        requires
            old(self).wf(),
            old(ast).wf(),
        ensures
            parse_kept(*old(self), *final(self), *old(ast), *final(ast)),
            *final(self) == *old(self),
            defined_as(*old(ast), *final(ast), BaseCustomType::User, label, r),
    {
        self.define_type(BaseCustomType::User, label, ast)
    }

    /// The body of a user group, which holds nothing yet.
    fn parse_user_group(&mut self, label: TokenValue<Vec<u8>>, ast: &mut Ast) -> (r: Result<(), ParseErrorKind>)
        requires
            old(self).wf(),
            old(ast).wf(),
        ensures
            parse_kept(*old(self), *final(self), *old(ast), *final(ast)),
            *final(self) == *old(self),
            defined_as(*old(ast), *final(ast), BaseCustomType::UserGroup, label, r),
    {
        self.define_type(BaseCustomType::UserGroup, label, ast)
    }

    /// The body of an event, which holds nothing yet.
    fn parse_event(&mut self, label: TokenValue<Vec<u8>>, ast: &mut Ast) -> (r: Result<(), ParseErrorKind>)
        requires
            old(self).wf(),
            old(ast).wf(),
        ensures
            parse_kept(*old(self), *final(self), *old(ast), *final(ast)),
            *final(self) == *old(self),
            defined_as(*old(ast), *final(ast), BaseCustomType::Event, label, r),
    {
        self.define_type(BaseCustomType::Event, label, ast)
    }

    /// The body of a remote event, which holds nothing yet.
    fn parse_remote_event(&mut self, label: TokenValue<Vec<u8>>, ast: &mut Ast) -> (r: Result<(), ParseErrorKind>)
        requires
            old(self).wf(),
            old(ast).wf(),
        ensures
            parse_kept(*old(self), *final(self), *old(ast), *final(ast)),
            *final(self) == *old(self),
            defined_as(*old(ast), *final(ast), BaseCustomType::RemoteEvent, label, r),
    {
        self.define_type(BaseCustomType::RemoteEvent, label, ast)
    }

    /// The body of a function, which holds nothing yet.
    fn parse_function(&mut self, label: TokenValue<Vec<u8>>, ast: &mut Ast) -> (r: Result<(), ParseErrorKind>)
        requires
            old(self).wf(),
            old(ast).wf(),
        ensures
            parse_kept(*old(self), *final(self), *old(ast), *final(ast)),
            *final(self) == *old(self),
            defined_as(*old(ast), *final(ast), BaseCustomType::Function, label, r),
    {
        self.define_type(BaseCustomType::Function, label, ast)
    }

    /// The body of a remote function, which holds nothing yet.
    fn parse_remote_function(&mut self, label: TokenValue<Vec<u8>>, ast: &mut Ast) -> (r: Result<(), ParseErrorKind>)
        requires
            old(self).wf(),
            old(ast).wf(),
        ensures
            parse_kept(*old(self), *final(self), *old(ast), *final(ast)),
            *final(self) == *old(self),
            defined_as(*old(ast), *final(ast), BaseCustomType::RemoteFunction, label, r),
    {
        self.define_type(BaseCustomType::RemoteFunction, label, ast)
    }

    /// The body of an object type, which holds nothing yet.
    fn parse_object_type(&mut self, label: TokenValue<Vec<u8>>, ast: &mut Ast) -> (r: Result<(), ParseErrorKind>)
        requires
            old(self).wf(),
            old(ast).wf(),
        ensures
            parse_kept(*old(self), *final(self), *old(ast), *final(ast)),
            *final(self) == *old(self),
            defined_as(*old(ast), *final(ast), BaseCustomType::Object, label, r),
    {
        self.define_type(BaseCustomType::Object, label, ast)
    }

    /// Runs one `has` block for the collectable or group at `target`.
    #[verifier::rlimit(40)]
    fn run_has(&mut self, b: HasBlock, target: usize, ast: &mut Ast) -> (r: Result<(), ParseErrorKind>)
        requires
            old(self).wf(),
            old(ast).wf(),
            collectable_like(*old(ast), target),
        ensures
            parse_kept(*old(self), *final(self), *old(ast), *final(ast)),
            collectable_like(*final(ast), target),
            scopes_kept(old(ast).spec_scopes(), final(ast).spec_scopes()),
            r is Ok ==> final(self).spec_measure() < old(self).spec_measure(),
            block_at(state_of(*old(self))) != Some(b) ==> *final(self) == *old(self) && *final(ast) == *old(ast)
                && (r matches Err(e) && is_mismatch(e)),
            block_at(state_of(*old(self))) == Some(b) ==> match block_names_read(state_of(*old(self)), b) {
                Some((names, st_end)) => names_fresh(old(ast).spec_types(), names, names.len() as int) ==> r is Ok
                    && state_of(*final(self)) == st_end && block_effect(
                    old(ast).spec_types(),
                    final(ast).spec_types(),
                    target as int,
                    b,
                    names,
                ),
                None => true,
            },
    {
        proof {
            lemma_after_advances_step(self.spec_kind(), self.spec_inp(), self.spec_span(), 0);
            lemma_after_advances_step(self.spec_kind(), self.spec_inp(), self.spec_span(), 1);
        }
        let ghost t0 = ast.spec_types();
        let ghost st0 = state_of(*self);
        proof {
            lemma_scopes_kept_refl(ast.spec_scopes());
        }
        let r = match b {
            HasBlock::Collectable => self.parse_has_collectable_or_group(false, ast),
            HasBlock::CollectableGroup => self.parse_has_collectable_or_group(true, ast),
            HasBlock::Redemptions => {
                proof {
                    lemma_ast_grew_refl(*ast);
                }
                let v = self.parse_redemptions()?;
                ast.insert_redemptions(target, v);
                proof {
                    assert(list_given(t0[target as int], ast.spec_types()[target as int], false));
                    lemma_ast_grew_update(*old(ast), *ast, target as int, ast.spec_types()[target as int]);
                }
                Ok(())
            },
            HasBlock::Upgrades => {
                proof {
                    lemma_ast_grew_refl(*ast);
                }
                let v = self.parse_upgrades()?;
                ast.insert_upgrades(target, v);
                proof {
                    assert(list_given(t0[target as int], ast.spec_types()[target as int], true));
                    lemma_ast_grew_update(*old(ast), *ast, target as int, ast.spec_types()[target as int]);
                }
                Ok(())
            },
        };
        proof {
            lemma_collectable_like_kept(*old(ast), *ast, target);
            if block_at(st0) == Some(b) && (b == HasBlock::Collectable || b == HasBlock::CollectableGroup) {
                let st_list = if b == HasBlock::CollectableGroup {
                    step_state(step_state(st0))
                } else {
                    step_state(st0)
                };
                assert(st_list == after_advances(
                    st0.0,
                    st0.1,
                    st0.2,
                    if b == HasBlock::CollectableGroup {
                        2nat
                    } else {
                        1nat
                    },
                ));
                if st_list.0 is Identifier {
                    assert(block_names(st0, b) == seq![st_list.0->Identifier_0]);
                }
                if st_list.0 is Identifier && find_type(t0, st_list.0->Identifier_0) is None {
                    let t1 = ast.spec_types();
                    assert(t1[t0.len() + 0int] == t1.last());
                    assert(inlines_added(t0, t1, seq![st_list.0->Identifier_0], 1, b == HasBlock::CollectableGroup));
                }
            }
            if block_at(st0) == Some(b) && block_names_read(st0, b) is Some {
                let (names, st_end) = block_names_read(st0, b)->0;
                if names_fresh(t0, names, names.len() as int) {
                    if names.len() == 1 {
                        assert(find_type(t0, names[0]) is None);
                    }
                    assert(r is Ok);
                    assert(state_of(*self) == st_end);
                    assert(block_effect(t0, ast.spec_types(), target as int, b, names));
                }
            }
        }
        r
    }

    /// The `has` blocks, none of them used yet.
    fn all_init(blocks: &[HasBlock]) -> (r: SplitVec<HasBlock>)
        ensures
            r.wf(),
            r@ == blocks@,
            r.split() == 0,
    {
        let mut sv = SplitVec::with_capacity(blocks.len());
        let mut i: usize = 0;
        while i < blocks.len()
            invariant
                i <= blocks@.len(),
                sv.wf(),
                sv.split() == 0,
                sv@ == blocks@.take(i as int),
            decreases blocks@.len() - i,
        {
            sv.push_right(blocks[i]);
            i = i + 1;
            assert(sv@ =~= blocks@.take(i as int));
        }
        assert(blocks@.take(blocks@.len() as int) =~= blocks@);
        sv
    }

    /// Whether every `has` block has been used.
    fn all_done(fns: &SplitVec<HasBlock>) -> (r: bool)
        requires
            fns.wf(),
        ensures
            r == (fns.right().len() == 0),
    {
        fns.right_len() == 0
    }

    /// Runs the first unused `has` block that the next tokens fit, and
    /// marks it used; the blocks already used are not tried again.
    #[verifier::rlimit(40)]
    fn all_next(&mut self, fns: &mut SplitVec<HasBlock>, target: usize, ast: &mut Ast) -> (r: Result<(), ParseErrorKind>)
        requires
            old(self).wf(),
            old(ast).wf(),
            old(fns).wf(),
            collectable_like(*old(ast), target),
        ensures
            parse_kept(*old(self), *final(self), *old(ast), *final(ast)),
            collectable_like(*final(ast), target),
            scopes_kept(old(ast).spec_scopes(), final(ast).spec_scopes()),
            final(fns).wf(),
            final(fns)@.len() == old(fns)@.len(),
            r is Ok ==> final(fns).right().len() + 1 == old(fns).right().len() && final(self).spec_measure()
                < old(self).spec_measure(),
            r is Err ==> *final(fns) == *old(fns),
            old(fns).right().len() == 0 ==> r is Err,
            match block_at(state_of(*old(self))) {
                Some(b) => (old(fns).right().contains(b) && block_ready(state_of(*old(self)), old(ast).spec_types(), b))
                    ==> r is Ok && state_of(*final(self)) == block_end(state_of(*old(self)), b)
                    && block_effect(
                    old(ast).spec_types(),
                    final(ast).spec_types(),
                    target as int,
                    b,
                    block_names(state_of(*old(self)), b),
                ) && final(fns)@.to_multiset() == old(fns)@.to_multiset() && final(fns).left().to_multiset() == old(
                    fns,
                ).left().to_multiset().insert(b),
                None => true,
            },
    {
        proof {
            lemma_ast_grew_refl(*ast);
            lemma_scopes_kept_refl(ast.spec_scopes());
        }
        let ghost st0 = state_of(*self);
        let ghost want = block_at(st0)->0;
        let ghost h = block_at(st0) is Some && old(fns).right().contains(want) && block_ready(
            st0,
            old(ast).spec_types(),
            want,
        );
        let right_len = fns.right_len();
        if right_len == 0 {
            proof {
                if h {
                    let j = choose|j: int| 0 <= j < old(fns).right().len() && old(fns).right()[j] == want;
                }
            }
            return Err(self.e_invalid("all_next called for completed list"));
        }
        let split = fns.split_index();
        let end = fns.len();
        let mut i = split;
        while i < end
            invariant
                self.wf(),
                ast.wf(),
                fns.wf(),
                *fns == *old(fns),
                split == fns.split(),
                end == fns@.len(),
                split <= i <= end,
                collectable_like(*ast, target),
                ast_grew(*old(ast), *ast),
                self.spec_filename() == old(self).spec_filename(),
                self.spec_measure() <= old(self).spec_measure(),
                st0 == state_of(*old(self)),
                want == block_at(st0)->0,
                h == (block_at(st0) is Some && old(fns).right().contains(want) && block_ready(
                    st0,
                    old(ast).spec_types(),
                    want,
                )),
                h ==> *self == *old(self) && *ast == *old(ast),
                h ==> forall|k: int| split <= k < i ==> fns@[k] != want,
                scopes_kept(old(ast).spec_scopes(), ast.spec_scopes()),
            decreases end - i,
        {
            let f = *fns.get(i);
            let ghost before = *ast;
            proof {
                if h {
                    assert(block_at(state_of(*self)) == Some(want));
                    assert(block_ready(state_of(*self), ast.spec_types(), want));
                }
            }
            let res = optional(self.run_has(f, target, ast));
            proof {
                lemma_ast_grew_trans(*old(ast), before, *ast);
                lemma_scopes_kept_trans(old(ast).spec_scopes(), before.spec_scopes(), ast.spec_scopes());
            }
            match res {
                Ok(Some(())) => {
                    let ghost v0 = fns@;
                    fns.move_left(i);
                    proof {
                        if h {
                            assert(f == want);
                            lemma_move_changes_left_by_the_item(v0, split as nat, i as nat, true);
                        }
                    }
                    return Ok(());
                },
                Ok(None) => {},
                Err(e) => return Err(e),
            }
            i = i + 1;
        }
        proof {
            if h {
                let j = choose|j: int| 0 <= j < old(fns).right().len() && old(fns).right()[j] == want;
                assert(fns@[split + j] == old(fns).right()[j]);
            }
        }
        Err(self.e_unexpected())
    }

    /// A property in a body, from `property` to its `;`, added to the scope
    /// of the collectable or group at `c`.
    #[verifier::rlimit(40)]
    fn body_property(&mut self, c: usize, ast: &mut Ast) -> (r: Result<(), ParseErrorKind>)
        requires
            old(self).wf(),
            old(ast).wf(),
            collectable_like(*old(ast), c),
            old(self).spec_kind() == TokenKindView::Keyword(Keyword::Property),
        ensures
            parse_kept(*old(self), *final(self), *old(ast), *final(ast)),
            collectable_like(*final(ast), c),
            r is Ok ==> final(self).spec_measure() < old(self).spec_measure(),
            match prop_read(state_of(*old(self))) {
                Some((n, t, init, st4)) => {
                    let sc = first_scope(old(ast).spec_types()[c as int]);
                    !scope_has(old(ast).spec_scopes(), sc, n) ==> r is Ok && state_of(*final(self)) == st4
                        && final(ast).spec_types() == old(ast).spec_types() && var_added(
                        old(ast).spec_scopes(),
                        final(ast).spec_scopes(),
                        sc,
                        final(ast).spec_scopes()[sc].vars@.last(),
                    ) && prop_is(
                        final(ast).spec_scopes()[sc].vars@.last(),
                        n,
                        t,
                        init,
                        sc as usize,
                        old(ast).spec_scopes()[sc].kind,
                    )
                },
                None => true,
            },
    {
        proof {
            lemma_ast_grew_refl(*ast);
        }
        self.advance()?;
        let scope = body_scope(ast, c);
        let ghost before = *ast;
        let prop = self.parse_property(scope, ast)?;
        proof {
            lemma_ast_grew_trans(*old(ast), before, *ast);
            lemma_collectable_like_kept(before, *ast, c);
        }
        let ghost before2 = *ast;
        match ast.insert_variable(scope, prop) {
            Ok(_) => {},
            Err(e) => return Err(ParseErrorKind::Ast(e)),
        }
        proof {
            assert(ast.spec_types() == before2.spec_types());
            assert(ast.spec_types().take(before2.spec_types().len() as int) =~= before2.spec_types());
            lemma_ast_grew_append(before2, *ast);
            lemma_ast_grew_trans(*old(ast), before2, *ast);
            lemma_collectable_like_kept(before2, *ast, c);
        }
        self.consume(Syntax::Kind(TokenKind::Semicolon))?;
        Ok(())
    }

    /// A `has` block in a body, from `has` to its `;`, for the collectable
    /// or group at `c`; each kind of block is taken once.
    fn body_block(&mut self, fns: &mut SplitVec<HasBlock>, c: usize, is_group: bool, ast: &mut Ast) -> (r: Result<
        (),
        ParseErrorKind,
    >)
        requires
            old(self).wf(),
            old(ast).wf(),
            old(fns).wf(),
            collectable_like(*old(ast), c),
            old(self).spec_kind() == TokenKindView::Keyword(Keyword::Has),
        ensures
            parse_kept(*old(self), *final(self), *old(ast), *final(ast)),
            collectable_like(*final(ast), c),
            scopes_kept(old(ast).spec_scopes(), final(ast).spec_scopes()),
            final(fns).wf(),
            r is Ok ==> final(self).spec_measure() < old(self).spec_measure(),
            match block_at(step_state(state_of(*old(self)))) {
                Some(hb) => (old(fns).right().contains(hb) && block_ready(
                    step_state(state_of(*old(self))),
                    old(ast).spec_types(),
                    hb,
                ) && block_end(step_state(state_of(*old(self))), hb).0 == TokenKindView::Semicolon) ==> r is Ok
                    && state_of(*final(self)) == step_state(block_end(step_state(state_of(*old(self))), hb))
                    && block_effect(
                    old(ast).spec_types(),
                    final(ast).spec_types(),
                    c as int,
                    hb,
                    block_names(step_state(state_of(*old(self))), hb),
                ) && final(fns)@.to_multiset() == old(fns)@.to_multiset() && final(fns).left().to_multiset() == old(
                    fns,
                ).left().to_multiset().insert(hb),
                None => true,
            },
    {
        proof {
            lemma_ast_grew_refl(*ast);
            lemma_scopes_kept_refl(ast.spec_scopes());
            if block_at(step_state(state_of(*self))) is Some {
                let hb = block_at(step_state(state_of(*self)))->0;
                if old(fns).right().contains(hb) {
                    let j = choose|j: int| 0 <= j < old(fns).right().len() && old(fns).right()[j] == hb;
                }
            }
        }
        if !Self::all_done(fns) {
            self.advance()?;
            self.all_next(fns, c, ast)?;
            self.consume(Syntax::Kind(TokenKind::Semicolon))?;
            Ok(())
        } else if is_group {
            Err(self.e_syntax("only one of each has * block allowed"))
        } else {
            Err(self.e_syntax("only one of each `has *` block allowed"))
        }
    }

    /// The body of a collectable: its grouping, then properties and `has`
    /// blocks, each kind of block once.
    fn parse_collectable(&mut self, label: TokenValue<Vec<u8>>, ast: &mut Ast) -> (r: Result<(), ParseErrorKind>)
        requires
            old(self).wf(),
            old(ast).wf(),
        ensures
            parse_kept(*old(self), *final(self), *old(ast), *final(ast)),
            find_type(old(ast).spec_types(), name_bytes(label)) is Some ==> *final(ast) == *old(ast)
                && *final(self) == *old(self) && (r matches Err(ParseErrorKind::Ast(e)) && is_duplicate(
                e,
                name_bytes(label),
                label.spec_span(),
                base_type_name(BaseCustomType::Collectable),
            )),
            find_type(old(ast).spec_types(), name_bytes(label)) is None ==> final(ast).spec_types().len() > old(ast).spec_types().len()
                && (final(ast).spec_types()[old(ast).spec_types().len() as int] matches Type::Custom(c) && custom_base(c) == BaseCustomType::Collectable)
                && (old(self).spec_kind() == TokenKindView::Keyword(Keyword::End) ==> r is Ok && *final(self) == *old(self)
                && final(ast).spec_types().len() == old(ast).spec_types().len() + 1
                && type_name_bytes(final(ast).spec_types().last()) == name_bytes(label)),
            find_type(old(ast).spec_types(), name_bytes(label)) is None ==> match body_read(
                state_of(*old(self)),
                BaseCustomType::Collectable == BaseCustomType::CollectableGroup,
            ) {
                Some((g, items, st_end)) => body_fresh(
                    old(ast).spec_types(),
                    old(ast).spec_scopes(),
                    name_bytes(label),
                    items,
                ) ==> r is Ok && state_of(*final(self)) == st_end && body_added(
                    old(ast).spec_types(),
                    old(ast).spec_scopes(),
                    final(ast).spec_types(),
                    final(ast).spec_scopes(),
                    BaseCustomType::Collectable,
                    name_bytes(label),
                    g,
                    items,
                ),
                None => true,
            },
    {
        self.parse_body(BaseCustomType::Collectable, label, ast)
    }

    /// The body of a collectable group: its grouping, then properties and
    /// `has` blocks, each kind of block once.
    fn parse_collectable_group(&mut self, label: TokenValue<Vec<u8>>, ast: &mut Ast) -> (r: Result<(), ParseErrorKind>)
        requires
            old(self).wf(),
            old(ast).wf(),
        ensures
            parse_kept(*old(self), *final(self), *old(ast), *final(ast)),
            find_type(old(ast).spec_types(), name_bytes(label)) is Some ==> *final(ast) == *old(ast)
                && *final(self) == *old(self) && (r matches Err(ParseErrorKind::Ast(e)) && is_duplicate(
                e,
                name_bytes(label),
                label.spec_span(),
                base_type_name(BaseCustomType::CollectableGroup),
            )),
            find_type(old(ast).spec_types(), name_bytes(label)) is None ==> final(ast).spec_types().len() > old(ast).spec_types().len()
                && (final(ast).spec_types()[old(ast).spec_types().len() as int] matches Type::Custom(c) && custom_base(c) == BaseCustomType::CollectableGroup)
                && (old(self).spec_kind() == TokenKindView::Keyword(Keyword::End) ==> r is Ok && *final(self) == *old(self)
                && final(ast).spec_types().len() == old(ast).spec_types().len() + 1
                && type_name_bytes(final(ast).spec_types().last()) == name_bytes(label)),
            find_type(old(ast).spec_types(), name_bytes(label)) is None ==> match body_read(
                state_of(*old(self)),
                BaseCustomType::CollectableGroup == BaseCustomType::CollectableGroup,
            ) {
                Some((g, items, st_end)) => body_fresh(
                    old(ast).spec_types(),
                    old(ast).spec_scopes(),
                    name_bytes(label),
                    items,
                ) ==> r is Ok && state_of(*final(self)) == st_end && body_added(
                    old(ast).spec_types(),
                    old(ast).spec_scopes(),
                    final(ast).spec_types(),
                    final(ast).spec_scopes(),
                    BaseCustomType::CollectableGroup,
                    name_bytes(label),
                    g,
                    items,
                ),
                None => true,
            },
    {
        self.parse_body(BaseCustomType::CollectableGroup, label, ast)
    }

    #[verifier::rlimit(100)]
    #[verifier::spinoff_prover]
    fn parse_body(&mut self, b: BaseCustomType, label: TokenValue<Vec<u8>>, ast: &mut Ast) -> (r: Result<(), ParseErrorKind>)
        requires
            old(self).wf(),
            old(ast).wf(),
            b == BaseCustomType::Collectable || b == BaseCustomType::CollectableGroup,
        ensures
            parse_kept(*old(self), *final(self), *old(ast), *final(ast)),
            find_type(old(ast).spec_types(), name_bytes(label)) is Some ==> *final(ast) == *old(ast)
                && *final(self) == *old(self) && (r matches Err(ParseErrorKind::Ast(e)) && is_duplicate(
                e,
                name_bytes(label),
                label.spec_span(),
                base_type_name(b),
            )),
            find_type(old(ast).spec_types(), name_bytes(label)) is None ==> final(ast).spec_types().len() > old(ast).spec_types().len()
                && (final(ast).spec_types()[old(ast).spec_types().len() as int] matches Type::Custom(c) && custom_base(c) == b)
                && (old(self).spec_kind() == TokenKindView::Keyword(Keyword::End) ==> r is Ok && *final(self) == *old(self)
                && final(ast).spec_types().len() == old(ast).spec_types().len() + 1
                && type_name_bytes(final(ast).spec_types().last()) == name_bytes(label)),
            find_type(old(ast).spec_types(), name_bytes(label)) is None ==> match body_read(
                state_of(*old(self)),
                b == BaseCustomType::CollectableGroup,
            ) {
                Some((g, items, st_end)) => body_fresh(
                    old(ast).spec_types(),
                    old(ast).spec_scopes(),
                    name_bytes(label),
                    items,
                ) ==> r is Ok && state_of(*final(self)) == st_end && body_added(
                    old(ast).spec_types(),
                    old(ast).spec_scopes(),
                    final(ast).spec_types(),
                    final(ast).spec_scopes(),
                    b,
                    name_bytes(label),
                    g,
                    items,
                ),
                None => true,
            },
    {
        let is_group = b == BaseCustomType::CollectableGroup;
        let scope_count = ast.scopes().len();
        let ghost st0 = state_of(*self);
        let ghost t0 = ast.spec_types();
        let ghost s0 = ast.spec_scopes();
        let ghost lname = name_bytes(label);
        let ghost read = body_read(st0, is_group);
        let ghost (g, items, st_end) = match read {
            Some(x) => x,
            None => (AutoGrouping::Inherit, Seq::<BodyItem>::empty(), st0),
        };
        let ghost h = find_type(t0, lname) is None && read is Some && body_fresh(t0, s0, lname, items);
        proof {
            ast.lemma_wf_basics();
            lemma_after_advances_step(self.spec_kind(), self.spec_inp(), self.spec_span(), 0);
            lemma_after_advances_step(self.spec_kind(), self.spec_inp(), self.spec_span(), 1);
            lemma_after_advances_step(self.spec_kind(), self.spec_inp(), self.spec_span(), 2);
        }
        let res = ast.insert_fresh(b, label);
        let c = match res {
            Ok(c) => c,
            Err(e) => {
                proof {
                    lemma_ast_grew_refl(*ast);
                }
                return Err(ParseErrorKind::Ast(e));
            },
        };
        proof {
            lemma_ast_grew_append(*old(ast), *ast);
            assert(ast.spec_types()[c as int] == ast.spec_types().last());
            assert(collectable_like(*ast, c));
        }
        let ag = self.parse_auto_grouping()?;
        let ghost before = *ast;
        ast.set_auto_grouping(c, ag);
        proof {
            lemma_ast_grew_update(before, *ast, c as int, ast.spec_types()[c as int]);
            lemma_ast_grew_trans(*old(ast), before, *ast);
            lemma_collectable_like_kept(before, *ast, c);
        }
        let mut vec = if is_group {
            Self::all_init(&[HasBlock::Collectable, HasBlock::CollectableGroup, HasBlock::Redemptions, HasBlock::Upgrades])
        } else {
            Self::all_init(&[HasBlock::Redemptions, HasBlock::Upgrades])
        };
        let ghost mut k: int = 0;
        proof {
            if h {
                assert(ag == g);
                assert(items.take(0) =~= Seq::<BodyItem>::empty());
                assert(items.skip(0) =~= items);
                assert(vec@ =~= all_blocks(is_group));
                assert(vec.left() =~= Seq::<HasBlock>::empty());
                assert(s0.len() == scope_count);
                lemma_body_start(t0, s0, before.spec_types(), ast.spec_types(), ast.spec_scopes(), b, label, g);
            }
        }
        loop
            invariant
                self.wf(),
                ast.wf(),
                vec.wf(),
                collectable_like(*ast, c),
                ast_grew(*old(ast), *ast),
                self.spec_filename() == old(self).spec_filename(),
                self.spec_measure() <= old(self).spec_measure(),
                find_type(old(ast).spec_types(), name_bytes(label)) is None,
                c == old(ast).spec_types().len(),
                ast.spec_types()[c as int] matches Type::Custom(cc) && custom_base(cc) == b,
                old(self).spec_kind() == TokenKindView::Keyword(Keyword::End) ==> *self == *old(self)
                    && ast.spec_types().len() == old(ast).spec_types().len() + 1
                    && type_name_bytes(ast.spec_types().last()) == name_bytes(label),
                is_group == (b == BaseCustomType::CollectableGroup),
                t0 == old(ast).spec_types(),
                s0 == old(ast).spec_scopes(),
                0 < s0.len(),
                lname == name_bytes(label),
                st0 == state_of(*old(self)),
                read == body_read(st0, is_group),
                read is Some ==> read == Some((g, items, st_end)),
                h == (find_type(t0, lname) is None && read is Some && body_fresh(t0, s0, lname, items)),
                h ==> 0 <= k <= items.len(),
                h ==> body_items(state_of(*self), is_group, items_blocks(items.take(k))) == Some(
                    (items.skip(k), st_end),
                ),
                h ==> body_added(t0, s0, ast.spec_types(), ast.spec_scopes(), b, lname, g, items.take(k)),
                h ==> body_fresh(t0, s0, lname, items),
                h ==> vec@.to_multiset() == all_blocks(is_group).to_multiset(),
                h ==> vec.left().to_multiset() == items_blocks(items.take(k)).to_multiset(),
            decreases self.spec_measure(),
        {
            let ghost st = state_of(*self);
            let ghost ta = ast.spec_types();
            let ghost sa = ast.spec_scopes();
            let ghost used = items_blocks(items.take(k));
            if self.is(Syntax::Keyword(Keyword::Property)) {
                proof {
                    if h {
                        lemma_body_items_prop(st, is_group, used);
                        let (n, t, init, st4) = prop_read(st)->0;
                        let rest = read_members(body_items(st4, is_group, used));
                        assert(items.skip(k) == seq![BodyItem::Property(n, t, init)] + rest);
                        assert(items.skip(k)[0] == items[k]);
                        assert(items[k] == BodyItem::Property(n, t, init));
                        lemma_body_added_facts(t0, s0, ta, sa, b, lname, g, items, k);
                        assert(first_scope(ta[c as int]) == s0.len());
                        assert(!scope_has(sa, first_scope(ta[c as int]), n));
                    }
                }
                let ghost before = *ast;
                self.body_property(c, ast)?;
                proof {
                    lemma_ast_grew_trans(*old(ast), before, *ast);
                    if h {
                        let (n, t, init, st4) = prop_read(st)->0;
                        let rest = read_members(body_items(st4, is_group, used));
                        let last = ast.spec_scopes()[s0.len() as int].vars@.last();
                        lemma_body_prop_step(t0, s0, ta, sa, ast.spec_scopes(), b, lname, g, items, k, last);
                        let q = items.take(k + 1);
                        assert(q.drop_last() =~= items.take(k));
                        assert(q.last() == items[k]);
                        assert(items_blocks(q) == used);
                        assert(items.skip(k) =~= seq![items[k]] + items.skip(k + 1));
                        assert((seq![items[k]] + items.skip(k + 1)).skip(1) =~= items.skip(k + 1));
                        assert((seq![items[k]] + rest).skip(1) =~= rest);
                        assert(rest == items.skip(k + 1));
                        k = k + 1;
                    }
                }
            } else if self.is(Syntax::Keyword(Keyword::Has)) {
                proof {
                    if h {
                        lemma_body_items_has(st, is_group, used);
                        let (hb, names, st3) = has_read(st, is_group, used)->0;
                        let rest = read_members(body_items(st3, is_group, used.push(hb)));
                        assert(items.skip(k) == seq![BodyItem::Has(hb, names)] + rest);
                        assert(items.skip(k)[0] == items[k]);
                        assert(items[k] == BodyItem::Has(hb, names));
                        let st1 = step_state(st);
                        assert(block_at(st1) == Some(hb));
                        assert(block_names_read(st1, hb) == Some((names, block_end(st1, hb))));
                        assert(block_names(st1, hb) == names);
                        assert(block_end(st1, hb).0 == TokenKindView::Semicolon);
                        assert(st3 == step_state(block_end(st1, hb)));
                        lemma_block_left_to_try(vec@, vec.split() as int, used, is_group, hb);
                        lemma_block_fresh(t0, s0, ta, sa, b, lname, g, items, k);
                    }
                }
                let ghost before = *ast;
                self.body_block(&mut vec, c, is_group, ast)?;
                proof {
                    lemma_ast_grew_trans(*old(ast), before, *ast);
                    if h {
                        let (hb, names, st3) = has_read(st, is_group, used)->0;
                        let rest = read_members(body_items(st3, is_group, used.push(hb)));
                        lemma_body_has_step(t0, s0, ta, sa, ast.spec_types(), ast.spec_scopes(), b, lname, g, items, k);
                        let q = items.take(k + 1);
                        assert(q.drop_last() =~= items.take(k));
                        assert(q.last() == items[k]);
                        assert(items_blocks(q) == used.push(hb));
                        vstd::seq_lib::to_multiset_build(used, hb);
                        assert(items.skip(k) =~= seq![items[k]] + items.skip(k + 1));
                        assert((seq![items[k]] + items.skip(k + 1)).skip(1) =~= items.skip(k + 1));
                        assert((seq![items[k]] + rest).skip(1) =~= rest);
                        assert(rest == items.skip(k + 1));
                        k = k + 1;
                    }
                }
            } else {
                proof {
                    lemma_body_items_end(st, is_group, used);
                    if h {
                        assert(items.skip(k).len() == 0);
                        assert(items.take(k) =~= items);
                        assert(st_end == state_of(*self));
                        assert(body_added(t0, s0, ast.spec_types(), ast.spec_scopes(), b, lname, g, items));
                        assert(read == Some((g, items, st_end)));
                    }
                }
                return Ok(());
            }
        }
    }
}

/// The kind of the token `n` tokens on from the current token `k`, the
/// rest of the input `inp` and the current span `span`.
pub open spec fn kind_at(k: TokenKindView, inp: Seq<u8>, span: TokenSpan, n: nat) -> TokenKindView {
    after_advances(k, inp, span, n).0
}

/// A definition with no body or an empty one, from the current token: a
/// base type other than `array`, a name, then `;` or `: end ;`. Gives its
/// base type, its name and how many tokens it takes.
pub open spec fn simple_definition(k: TokenKindView, inp: Seq<u8>, span: TokenSpan) -> Option<(BaseCustomType, Seq<u8>, nat)> {
    match k {
        TokenKindView::Keyword(w) => match base_type_read(w, kind_at(k, inp, span, 1)) {
            Some((b, n)) => match kind_at(k, inp, span, n) {
                TokenKindView::Identifier(name) => if b == BaseCustomType::Array {
                    None
                } else if kind_at(k, inp, span, n + 1) == TokenKindView::Semicolon {
                    Some((b, name, n + 2))
                } else if kind_at(k, inp, span, n + 1) == TokenKindView::Colon && kind_at(k, inp, span, n + 2)
                    == TokenKindView::Keyword(Keyword::End) && kind_at(k, inp, span, n + 3)
                    == TokenKindView::Semicolon {
                    Some((b, name, n + 4))
                } else {
                    None
                },
                _ => None,
            },
            None => None,
        },
        _ => None,
    }
}

/// A definition without a body from the current token: a base type other
/// than `array`, a name and `;`. Gives its base type, its name and how many
/// tokens it takes.
pub open spec fn plain_definition(k: TokenKindView, inp: Seq<u8>, span: TokenSpan) -> Option<(BaseCustomType, Seq<u8>, nat)> {
    match k {
        TokenKindView::Keyword(w) => match base_type_read(w, kind_at(k, inp, span, 1)) {
            Some((b, n)) => match kind_at(k, inp, span, n) {
                TokenKindView::Identifier(name) => if b != BaseCustomType::Array && kind_at(k, inp, span, n + 1)
                    == TokenKindView::Semicolon {
                    Some((b, name, n + 2))
                } else {
                    None
                },
                _ => None,
            },
            None => None,
        },
        _ => None,
    }
}

/// The definitions without a body read from `st` up to the end of the file;
/// `None` where anything else stands before the end.
pub open spec fn plain_items(st: (TokenKindView, Seq<u8>, TokenSpan)) -> Option<Seq<(BaseCustomType, Seq<u8>)>>
    decreases state_measure(st),
{
    if st.0 is Eof {
        Some(Seq::empty())
    } else {
        match plain_definition(st.0, st.1, st.2) {
            Some((b, name, n)) => {
                let st1 = after_advances(st.0, st.1, st.2, n);
                if state_measure(st1) < state_measure(st) {
                    match plain_items(st1) {
                        Some(rest) => Some(seq![(b, name)] + rest),
                        None => None,
                    }
                } else {
                    None
                }
            },
            None => None,
        }
    }
}

/// Whether the names of the first `count` of `defs` are new: no type of
/// `t0` has one, and none repeats one before it.
pub open spec fn defs_fresh(t0: Seq<Type>, defs: Seq<(BaseCustomType, Seq<u8>)>, count: int) -> bool {
    forall|j: int|
        0 <= j < count ==> find_type(t0, (#[trigger] defs[j]).1) is None && forall|l: int|
            0 <= l < j ==> defs[l].1 != defs[j].1
}

/// Whether the types `t1` keep the names and kinds of the types `t0` and
/// add, in order, a type for each of the first `count` of `defs`, of its
/// base type and named by its name.
pub open spec fn defs_added(t0: Seq<Type>, t1: Seq<Type>, defs: Seq<(BaseCustomType, Seq<u8>)>, count: int) -> bool {
    &&& t1.len() == t0.len() + count
    &&& forall|i: int|
        0 <= i < t0.len() ==> same_kind(#[trigger] t0[i], t1[i]) && type_name_bytes(t1[i]) == type_name_bytes(
            t0[i],
        )
    &&& forall|j: int|
        0 <= j < count ==> type_name_bytes(#[trigger] t1[t0.len() + j]) == defs[j].1 && (t1[t0.len()
            + j] matches Type::Custom(c) && custom_base(c) == defs[j].0)
}

/// A name is found among types that `defs_added` made exactly where it is
/// found among the types before or among the names added.
proof fn lemma_find_in_defs(
    t0: Seq<Type>,
    t1: Seq<Type>,
    defs: Seq<(BaseCustomType, Seq<u8>)>,
    count: int,
    n: Seq<u8>,
)
    requires
        defs_added(t0, t1, defs, count),
        0 <= count <= defs.len(),
    ensures
        (find_type(t1, n) is None) == (find_type(t0, n) is None && forall|l: int| 0 <= l < count ==> defs[l].1 != n),
{
    if find_type(t0, n) is Some {
        let i = find_type(t0, n)->0;
        assert(same_kind(t0[i], t1[i]));
        assert(type_name_bytes(t1[i]) == n);
    }
    if exists|l: int| 0 <= l < count && defs[l].1 == n {
        let l = choose|l: int| 0 <= l < count && defs[l].1 == n;
        assert(type_name_bytes(t1[t0.len() + l]) == n);
    }
    if find_type(t1, n) is Some {
        let i = find_type(t1, n)->0;
        if i < t0.len() {
            assert(same_kind(t0[i], t1[i]));
            assert(type_name_bytes(t0[i]) == n);
        } else {
            let l = i - t0.len();
            assert(t1[t0.len() + l] == t1[i]);
            assert(defs[l].1 == n);
        }
    }
}

/// What reading a top level made only of definitions without a body owes:
/// where each name is new, the file is read to its end and a type is added
/// for each definition, in order.
pub open spec fn plain_program_read(
    st: (TokenKindView, Seq<u8>, TokenSpan),
    t0: Seq<Type>,
    t1: Seq<Type>,
    r: Result<ProgramStep, ParseErrorKind>,
) -> bool {
    match plain_items(st) {
        Some(defs) => defs_fresh(t0, defs, defs.len() as int) ==> (r matches Ok(ProgramStep::Done)) && defs_added(
            t0,
            t1,
            defs,
            defs.len() as int,
        ),
        None => true,
    }
}

proof fn lemma_defs_compose(t0: Seq<Type>, t1: Seq<Type>, t2: Seq<Type>, defs: Seq<(BaseCustomType, Seq<u8>)>)
    requires
        defs.len() >= 1,
        defs_added(t0, t1, defs, 1),
        defs_added(t1, t2, defs.skip(1), defs.len() - 1),
    ensures
        defs_added(t0, t2, defs, defs.len() as int),
{
    assert forall|i: int| 0 <= i < t0.len() implies same_kind(#[trigger] t0[i], t2[i]) && type_name_bytes(t2[i])
        == type_name_bytes(t0[i]) by {
        assert(same_kind(t0[i], t1[i]) && same_kind(t1[i], t2[i]));
    }
    assert forall|j: int| 0 <= j < defs.len() implies type_name_bytes(#[trigger] t2[t0.len() + j]) == defs[j].1
        && (t2[t0.len() + j] matches Type::Custom(c) && custom_base(c) == defs[j].0) by {
        if j == 0 {
            assert(type_name_bytes(t1[t0.len() + 0int]) == defs[0].1);
            assert(same_kind(t1[t0.len() as int], t2[t0.len() as int]));
        } else {
            assert(t2[t0.len() + j] == t2[t1.len() + (j - 1)]);
            assert(defs.skip(1)[j - 1] == defs[j]);
        }
    }
}

proof fn lemma_defs_fresh_rest(t0: Seq<Type>, t1: Seq<Type>, defs: Seq<(BaseCustomType, Seq<u8>)>)
    requires
        defs.len() >= 1,
        defs_fresh(t0, defs, defs.len() as int),
        defs_added(t0, t1, defs, 1),
    ensures
        defs_fresh(t1, defs.skip(1), defs.len() - 1),
{
    assert forall|j: int| 0 <= j < defs.len() - 1 implies find_type(t1, (#[trigger] defs.skip(1)[j]).1) is None
        && forall|l: int| 0 <= l < j ==> defs.skip(1)[l].1 != defs.skip(1)[j].1 by {
        assert(defs.skip(1)[j] == defs[j + 1]);
        assert(find_type(t0, defs[j + 1].1) is None);
        assert(defs[0].1 != defs[j + 1].1);
        lemma_find_in_defs(t0, t1, defs, 1, defs[j + 1].1);
        assert forall|l: int| 0 <= l < j implies defs.skip(1)[l].1 != defs.skip(1)[j].1 by {
            assert(defs.skip(1)[l] == defs[l + 1]);
        }
    }
}

proof fn lemma_defs_added_none(t0: Seq<Type>, defs: Seq<(BaseCustomType, Seq<u8>)>)
    ensures
        defs_added(t0, t0, defs, 0),
{
    assert forall|i: int| 0 <= i < t0.len() implies same_kind(#[trigger] t0[i], t0[i]) by {
        match t0[i] {
            Type::Primitive(..) => {},
            Type::Custom(..) => {},
        }
    }
}

/// The types that `defs_added` describes stay so while names and kinds are
/// kept.
proof fn lemma_defs_added_kept(t0: Seq<Type>, t1: Seq<Type>, t2: Seq<Type>)
    requires
        types_kept(t1, t2),
    ensures
        forall|defs: Seq<(BaseCustomType, Seq<u8>)>, count: int|
            0 <= count && #[trigger] defs_added(t0, t1, defs, count) ==> defs_added(t0, t2, defs, count),
{
    assert forall|defs: Seq<(BaseCustomType, Seq<u8>)>, count: int| 0 <= count && #[trigger] defs_added(
        t0,
        t1,
        defs,
        count,
    ) implies defs_added(t0, t2, defs, count) by {
        assert forall|i: int| 0 <= i < t0.len() implies same_kind(#[trigger] t0[i], t2[i]) && type_name_bytes(t2[i])
            == type_name_bytes(t0[i]) by {
            assert(same_kind(t0[i], t1[i]) && same_kind(t1[i], t2[i]));
        }
        assert forall|j: int| 0 <= j < count implies type_name_bytes(#[trigger] t2[t0.len() + j]) == defs[j].1
            && (t2[t0.len() + j] matches Type::Custom(c) && custom_base(c) == defs[j].0) by {
            assert(same_kind(t1[t0.len() + j], t2[t0.len() + j]));
            assert(type_name_bytes(t1[t0.len() + j]) == defs[j].1);
        }
    }
}

proof fn lemma_plain_is_simple(k: TokenKindView, inp: Seq<u8>, span: TokenSpan)
    requires
        plain_definition(k, inp, span) is Some,
    ensures
        simple_definition(k, inp, span) == plain_definition(k, inp, span),
{
}

proof fn lemma_plain_items_step(st: (TokenKindView, Seq<u8>, TokenSpan))
    requires
        !(st.0 is Eof),
        plain_items(st) is Some,
    ensures
        plain_definition(st.0, st.1, st.2) is Some,
        ({
            let (b, name, n) = plain_definition(st.0, st.1, st.2)->0;
            let st1 = after_advances(st.0, st.1, st.2, n);
            &&& state_measure(st1) < state_measure(st)
            &&& plain_items(st1) is Some
            &&& plain_items(st)->0 == seq![(b, name)] + plain_items(st1)->0
        }),
{
}

proof fn lemma_defs_added_step(
    t0: Seq<Type>,
    tb: Seq<Type>,
    ta: Seq<Type>,
    defs: Seq<(BaseCustomType, Seq<u8>)>,
    count: int,
)
    requires
        0 <= count < defs.len(),
        defs_added(t0, tb, defs, count),
        ta.len() == tb.len() + 1,
        ta.take(tb.len() as int) == tb,
        type_name_bytes(ta.last()) == defs[count].1,
        ta.last() matches Type::Custom(c) && custom_base(c) == defs[count].0,
    ensures
        defs_added(t0, ta, defs, count + 1),
{
    assert forall|i: int| 0 <= i < t0.len() implies same_kind(#[trigger] t0[i], ta[i]) && type_name_bytes(ta[i])
        == type_name_bytes(t0[i]) by {
        assert(ta[i] == ta.take(tb.len() as int)[i]);
        assert(same_kind(t0[i], tb[i]));
    }
    assert forall|j: int| 0 <= j < count + 1 implies type_name_bytes(#[trigger] ta[t0.len() + j]) == defs[j].1
        && (ta[t0.len() + j] matches Type::Custom(c) && custom_base(c) == defs[j].0) by {
        if j < count {
            assert(ta[t0.len() + j] == ta.take(tb.len() as int)[t0.len() + j]);
            assert(type_name_bytes(tb[t0.len() + j]) == defs[j].1);
        } else {
            assert(ta[t0.len() + j] == ta.last());
        }
    }
}

/// Whether the program `a1` is `a0` with one more type, of base `b` and
/// named `name`.
pub open spec fn type_added(a0: Ast, a1: Ast, b: BaseCustomType, name: Seq<u8>) -> bool {
    &&& a1.spec_types().len() == a0.spec_types().len() + 1
    &&& type_name_bytes(a1.spec_types().last()) == name
    &&& a1.spec_types().last() matches Type::Custom(c) && custom_base(c) == b
}

/// Whether `e` says that a type of that name is defined already.
pub open spec fn is_duplicate_of(e: ParseErrorKind, name: Seq<u8>) -> bool {
    e matches ParseErrorKind::Ast(AstErrorKind::DuplicateDefinition(n, _, _)) && n@ == name
}

/// A type added stays added while names and kinds are kept.
proof fn lemma_type_added_kept(a0: Ast, a1: Ast, a2: Ast)
    requires
        types_kept(a1.spec_types(), a2.spec_types()),
    ensures
        forall|b: BaseCustomType, name: Seq<u8>| type_added(a0, a1, b, name) ==> #[trigger] type_added(a0, a2, b, name),
{
    if a1.spec_types().len() > 0 {
        let j = a1.spec_types().len() - 1;
        assert(same_kind(a1.spec_types()[j], a2.spec_types()[j]));
    }
}

/// Moving on `a` tokens, then `b`, is moving on `a + b`.
proof fn lemma_after_advances_add(k: TokenKindView, inp: Seq<u8>, span: TokenSpan, a: nat, b: nat)
    ensures
        ({
            let (k1, inp1, span1) = after_advances(k, inp, span, a);
            after_advances(k1, inp1, span1, b) == after_advances(k, inp, span, a + b)
        }),
    decreases b,
{
    if b > 0 {
        lemma_after_advances_add(k, inp, span, a, (b - 1) as nat);
    }
}

proof fn lemma_advanced_by_add(p0: Parser, p1: Parser, p2: Parser, a: nat, b: nat)
    requires
        advanced_by(p0, p1, a),
        advanced_by(p1, p2, b),
    ensures
        advanced_by(p0, p2, a + b),
{
    lemma_after_advances_add(p0.spec_kind(), p0.spec_inp(), p0.spec_span(), a, b);
}

impl<'p> Parser<'p> {
    /// Reads the first token, then the top level of the file.
    pub fn parse_program(&mut self, ast: &mut Ast) -> (r: Result<ProgramStep, ParseErrorKind>)
        requires
            old(self).wf(),
            old(ast).wf(),
        ensures
            parse_kept(*old(self), *final(self), *old(ast), *final(ast)),
            r matches Ok(ProgramStep::Done) ==> final(self).spec_kind() is Eof,
            items_read(
                next_kind(old(self).spec_inp()),
                next_rest(old(self).spec_inp()),
                next_span(old(self).spec_inp(), old(self).spec_span()),
                *old(ast),
                *final(ast),
                r,
            ),
            plain_program_read(step_state(state_of(*old(self))), old(ast).spec_types(), final(ast).spec_types(), r),
            body_program_read(step_state(state_of(*old(self))), *old(ast), *final(ast), r),
    {
        self.advance()?;
        self.parse_items(ast)
    }

    /// The top level of a file: includes and type definitions, up to the end
    /// of the file or the next include, whose path is handed back with the
    /// parser placed after it. A definition is a base type and a name, then
    /// `;`, or `:`, a body and `end ;`.
    pub fn parse_items(&mut self, ast: &mut Ast) -> (r: Result<ProgramStep, ParseErrorKind>)
        requires
            old(self).wf(),
            old(ast).wf(),
        ensures
            parse_kept(*old(self), *final(self), *old(ast), *final(ast)),
            r matches Ok(ProgramStep::Done) ==> final(self).spec_kind() is Eof,
            old(self).spec_kind() is Eof ==> (r matches Ok(ProgramStep::Done)) && *final(self) == *old(self)
                && *final(ast) == *old(ast),
            items_read(old(self).spec_kind(), old(self).spec_inp(), old(self).spec_span(), *old(ast), *final(ast), r),
            plain_program_read(state_of(*old(self)), old(ast).spec_types(), final(ast).spec_types(), r),
            body_program_read(state_of(*old(self)), *old(ast), *final(ast), r),
    {
        let ghost st0 = state_of(*self);
        let ghost t0 = ast.spec_types();
        let ghost defs = plain_items(st0)->0;
        let ghost h = plain_items(st0) is Some && defs_fresh(t0, defs, defs.len() as int);
        proof {
            lemma_defs_added_none(t0, defs);
        }
        if self.is(Syntax::Kind(TokenKind::Eof)) {
            proof {
                lemma_ast_grew_refl(*ast);
            }
            return Ok(ProgramStep::Done);
        }
        proof {
            if h {
                lemma_plain_items_step(st0);
                lemma_plain_is_simple(st0.0, st0.1, st0.2);
                assert(defs[0] == plain_items(st0)->0[0]);
                assert(find_type(t0, (defs[0]).1) is None);
            }
        }
        let ghost a0 = *ast;
        let step = self.parse_item(ast)?;
        proof {
            if h {
                let (b, name, n) = plain_definition(st0.0, st0.1, st0.2)->0;
                lemma_defs_added_step(t0, t0, ast.spec_types(), defs, 0);
                assert(state_of(*self) == after_advances(st0.0, st0.1, st0.2, n));
                let rest = plain_items(state_of(*self))->0;
                assert((seq![(b, name)] + rest).skip(1) =~= rest);
                assert(plain_items(state_of(*self)) == Some(defs.skip(1)));
                lemma_defs_fresh_rest(t0, ast.spec_types(), defs);
            }
        }
        match step {
            Some(step) => Ok(step),
            None => {
                let ghost a1 = *ast;
                let r = self.parse_rest(ast);
                proof {
                    if h {
                        lemma_defs_compose(t0, a1.spec_types(), ast.spec_types(), defs);
                    }
                    lemma_ast_grew_trans(a0, a1, *ast);
                }
                r
            },
        }
    }

    /// The rest of the top level, after a definition.
    #[verifier::rlimit(40)]
    fn parse_rest(&mut self, ast: &mut Ast) -> (r: Result<ProgramStep, ParseErrorKind>)
        requires
            old(self).wf(),
            old(ast).wf(),
        ensures
            parse_kept(*old(self), *final(self), *old(ast), *final(ast)),
            r matches Ok(ProgramStep::Done) ==> final(self).spec_kind() is Eof,
            old(self).spec_kind() is Eof ==> (r matches Ok(ProgramStep::Done)) && *final(self) == *old(self)
                && *final(ast) == *old(ast),
            plain_program_read(state_of(*old(self)), old(ast).spec_types(), final(ast).spec_types(), r),
    {
        proof {
            lemma_ast_grew_refl(*ast);
        }
        let ghost t0 = ast.spec_types();
        let ghost defs = plain_items(state_of(*self))->0;
        let ghost h = plain_items(state_of(*self)) is Some && defs_fresh(t0, defs, defs.len() as int);
        let ghost mut count: int = 0;
        proof {
            if h {
                assert(defs.skip(0) =~= defs);
                lemma_defs_added_none(t0, defs);
            }
        }
        loop
            invariant
                self.wf(),
                ast.wf(),
                ast_grew(*old(ast), *ast),
                self.spec_filename() == old(self).spec_filename(),
                self.spec_measure() <= old(self).spec_measure(),
                old(self).spec_kind() is Eof ==> *self == *old(self) && *ast == *old(ast),
                t0 == old(ast).spec_types(),
                defs == plain_items(state_of(*old(self)))->0,
                h == (plain_items(state_of(*old(self))) is Some && defs_fresh(t0, defs, defs.len() as int)),
                h ==> 0 <= count <= defs.len() && plain_items(state_of(*self)) == Some(defs.skip(count))
                    && defs_added(t0, ast.spec_types(), defs, count),
            decreases self.spec_measure(),
        {
            if self.is(Syntax::Kind(TokenKind::Eof)) {
                proof {
                    if h {
                        assert(defs.skip(count).len() == 0);
                    }
                }
                return Ok(ProgramStep::Done);
            }
            let ghost before = *ast;
            let ghost st = state_of(*self);
            proof {
                if h {
                    lemma_plain_items_step(st);
                    lemma_plain_is_simple(st.0, st.1, st.2);
                    let (b, name, n) = plain_definition(st.0, st.1, st.2)->0;
                    assert(defs.skip(count).len() >= 1);
                    assert(defs.skip(count)[0] == defs[count]);
                    assert(defs[count] == (b, name));
                    lemma_find_in_defs(t0, before.spec_types(), defs, count, name);
                    assert(find_type(t0, (defs[count]).1) is None);
                }
            }
            let step = self.parse_item(ast)?;
            proof {
                lemma_ast_grew_trans(*old(ast), before, *ast);
                if h {
                    let (b, name, n) = plain_definition(st.0, st.1, st.2)->0;
                    assert(state_of(*self) == after_advances(st.0, st.1, st.2, n));
                    assert(plain_items(st)->0 == seq![(b, name)] + plain_items(state_of(*self))->0);
                    lemma_defs_added_step(t0, before.spec_types(), ast.spec_types(), defs, count);
                    assert(defs.skip(count) =~= seq![defs[count]] + defs.skip(count + 1));
                    let rest = plain_items(state_of(*self))->0;
                    assert((seq![(b, name)] + rest).skip(1) =~= rest);
                    assert((seq![defs[count]] + defs.skip(count + 1)).skip(1) =~= defs.skip(count + 1));
                    assert(plain_items(state_of(*self)) == Some(defs.skip(count + 1)));
                    count = count + 1;
                }
            }
            if let Some(step) = step {
                return Ok(step);
            }
        }
    }

    /// One item of the top level, the current token not being the end: an
    /// include, whose path is handed back, or a definition.
    fn parse_item(&mut self, ast: &mut Ast) -> (r: Result<Option<ProgramStep>, ParseErrorKind>)
        requires
            old(self).wf(),
            old(ast).wf(),
            !(old(self).spec_kind() is Eof),
        ensures
            parse_kept(*old(self), *final(self), *old(ast), *final(ast)),
            r matches Ok(None) ==> final(self).spec_measure() < old(self).spec_measure(),
            r matches Ok(Some(step)) ==> step is Include,
            ({
                let (k, inp, span) = (old(self).spec_kind(), old(self).spec_inp(), old(self).spec_span());
                &&& (k == TokenKindView::Keyword(Keyword::Include) && kind_at(k, inp, span, 1) is String
                    && kind_at(k, inp, span, 2) == TokenKindView::Semicolon) ==> (r matches Ok(
                    Some(ProgramStep::Include(path)),
                ) && kind_at(k, inp, span, 1) == TokenKindView::String(path@)) && *final(ast) == *old(ast)
                    && advanced_by(*old(self), *final(self), 3)
                &&& simple_definition(k, inp, span) matches Some((b, name, n)) ==> if find_type(
                    old(ast).spec_types(),
                    name,
                ) is None {
                    r == Ok::<Option<ProgramStep>, ParseErrorKind>(None) && advanced_by(*old(self), *final(self), n)
                        && type_added(*old(ast), *final(ast), b, name)
                } else {
                    r matches Err(e) && is_duplicate_of(e, name)
                }
                &&& plain_definition(k, inp, span) matches Some((b, name, n)) ==> (find_type(
                    old(ast).spec_types(),
                    name,
                ) is None ==> final(ast).spec_types().take(old(ast).spec_types().len() as int) == old(
                    ast,
                ).spec_types())
                &&& match body_item_read((k, inp, span)) {
                    Some((b, name, g, items, st_after)) => (find_type(old(ast).spec_types(), name) is None
                        && body_fresh(old(ast).spec_types(), old(ast).spec_scopes(), name, items)) ==> r
                        == Ok::<Option<ProgramStep>, ParseErrorKind>(None) && state_of(*final(self)) == st_after
                        && body_added(
                        old(ast).spec_types(),
                        old(ast).spec_scopes(),
                        final(ast).spec_types(),
                        final(ast).spec_scopes(),
                        b,
                        name,
                        g,
                        items,
                    ),
                    None => true,
                }
            }),
    {
        proof {
            lemma_after_advances_step(self.spec_kind(), self.spec_inp(), self.spec_span(), 0);
            lemma_after_advances_step(self.spec_kind(), self.spec_inp(), self.spec_span(), 1);
            lemma_after_advances_step(self.spec_kind(), self.spec_inp(), self.spec_span(), 2);
        }
        if self.is(Syntax::Keyword(Keyword::Include)) {
            let path = self.parse_include()?;
            proof {
                lemma_ast_grew_refl(*ast);
            }
            return Ok(Some(ProgramStep::Include(path)));
        }
        let ghost p0 = *self;
        let base = self.parse_base_custom_type()?;
        let ghost p1 = *self;
        let res = self.parse_definition(base, ast);
        proof {
            let (k, inp, span) = (p0.spec_kind(), p0.spec_inp(), p0.spec_span());
            if let Some((b, name, n)) = simple_definition(k, inp, span) {
                let m = base_type_read(match k { TokenKindView::Keyword(w) => w, _ => Keyword::End }, kind_at(k, inp, span, 1)).unwrap().1;
                lemma_after_advances_add(k, inp, span, m, 1);
                lemma_after_advances_add(k, inp, span, m, 2);
                lemma_after_advances_add(k, inp, span, m, 3);
                lemma_after_advances_add(k, inp, span, m, 0);
                if res is Ok {
                    let j: nat = (n - m) as nat;
                    lemma_advanced_by_add(p0, p1, *self, m, j);
                }
            }
        }
        res?;
        Ok(None)
    }

    /// A definition after its base type: a name, then `;`, or `:`, a body
    /// and `end ;`.
    #[verifier::rlimit(40)]
    fn parse_definition(&mut self, base: BaseCustomType, ast: &mut Ast) -> (r: Result<(), ParseErrorKind>)
        requires
            old(self).wf(),
            old(ast).wf(),
            base != BaseCustomType::EarlyRef,
        ensures
            parse_kept(*old(self), *final(self), *old(ast), *final(ast)),
            r is Ok ==> final(self).spec_measure() < old(self).spec_measure(),
            ({
                let (k, inp, span) = (old(self).spec_kind(), old(self).spec_inp(), old(self).spec_span());
                let k1 = kind_at(k, inp, span, 1);
                let body = k1 == TokenKindView::Colon && kind_at(k, inp, span, 2) == TokenKindView::Keyword(Keyword::End)
                    && kind_at(k, inp, span, 3) == TokenKindView::Semicolon;
                &&& k matches TokenKindView::Identifier(name) ==> ((base != BaseCustomType::Array && (k1
                    == TokenKindView::Semicolon || body)) ==> if find_type(old(ast).spec_types(), name) is None {
                    r is Ok && advanced_by(*old(self), *final(self), if body { 4nat } else { 2nat })
                        && type_added(*old(ast), *final(ast), base, name)
                } else {
                    r matches Err(e) && is_duplicate_of(e, name)
                })
                &&& k is Identifier && base != BaseCustomType::Array && k1 == TokenKindView::Semicolon && find_type(
                    old(ast).spec_types(),
                    k->Identifier_0,
                ) is None ==> final(ast).spec_types().take(old(ast).spec_types().len() as int) == old(
                    ast,
                ).spec_types()
            }),
            match body_definition_read(state_of(*old(self)), base) {
                Some((name, g, items, st_after)) => (find_type(old(ast).spec_types(), name) is None && body_fresh(
                    old(ast).spec_types(),
                    old(ast).spec_scopes(),
                    name,
                    items,
                )) ==> r is Ok && state_of(*final(self)) == st_after && body_added(
                    old(ast).spec_types(),
                    old(ast).spec_scopes(),
                    final(ast).spec_types(),
                    final(ast).spec_scopes(),
                    base,
                    name,
                    g,
                    items,
                ),
                None => true,
            },
    {
        proof {
            lemma_ast_grew_refl(*ast);
            lemma_after_advances_step(self.spec_kind(), self.spec_inp(), self.spec_span(), 0);
            lemma_after_advances_step(self.spec_kind(), self.spec_inp(), self.spec_span(), 1);
            lemma_after_advances_step(self.spec_kind(), self.spec_inp(), self.spec_span(), 2);
            lemma_after_advances_step(self.spec_kind(), self.spec_inp(), self.spec_span(), 3);
        }
        self.expect(Syntax::Match(TokenMatch::Identifier))?;
        let label = self.string_token_value();
        self.advance()?;
        let ghost p1 = *self;
        let ghost before = *ast;
        if self.opt_consume(Syntax::Kind(TokenKind::Semicolon))? {
            match base.insert_empty_type(ast, label) {
                Ok(()) => {},
                Err(e) => return Err(ParseErrorKind::Ast(e)),
            }
            proof {
                if base != BaseCustomType::Array {
                    if find_type(before.spec_types(), name_bytes(label)) is None {
                        lemma_ast_grew_append(before, *ast);
                    } else {
                        lemma_ast_grew_refl(*ast);
                    }
                } else {
                    lemma_ast_grew_refl(*ast);
                }
                lemma_ast_grew_trans(*old(ast), before, *ast);
            }
            Ok(())
        } else {
            self.consume(Syntax::Kind(TokenKind::Colon))?;
            let ghost p2 = *self;
            let res = match base {
                BaseCustomType::Collectable => self.parse_collectable(label, ast),
                BaseCustomType::CollectableGroup => self.parse_collectable_group(label, ast),
                BaseCustomType::User => self.parse_user(label, ast),
                BaseCustomType::UserGroup => self.parse_user_group(label, ast),
                BaseCustomType::Event => self.parse_event(label, ast),
                BaseCustomType::RemoteEvent => self.parse_remote_event(label, ast),
                BaseCustomType::Function => self.parse_function(label, ast),
                BaseCustomType::RemoteFunction => self.parse_remote_function(label, ast),
                BaseCustomType::Object => self.parse_object_type(label, ast),
                BaseCustomType::Array => {
                    return Err(self.e_syntax("custom array types are defined inline"));
                },
                BaseCustomType::EarlyRef => vstd::pervasive::unreached(),
            };
            proof {
                lemma_ast_grew_trans(*old(ast), before, *ast);
            }
            proof {
                let sd = state_of(*old(self));
                if body_definition_read(sd, base) is Some {
                    assert(state_of(p2) == step_state(step_state(sd)));
                    assert(name_bytes(label) == sd.0->Identifier_0);
                }
            }
            res?;
            let ghost p3 = *self;
            self.parse_end()?;
            proof {
                if p3 == p2 {
                    lemma_after_advances_step(p2.spec_kind(), p2.spec_inp(), p2.spec_span(), 0);
                    lemma_after_advances_step(p2.spec_kind(), p2.spec_inp(), p2.spec_span(), 1);
                }
                lemma_after_advances_step(p3.spec_kind(), p3.spec_inp(), p3.spec_span(), 0);
                lemma_after_advances_step(p3.spec_kind(), p3.spec_inp(), p3.spec_span(), 1);
            }
            Ok(())
        }
    }
}

/// A definition whose body is read from `st`, at its name (after the base
/// type `b`): the name, `:`, the body and `end ;`. Gives the name, the
/// grouping, the members and the place after `;`.
pub open spec fn body_definition_read(st: (TokenKindView, Seq<u8>, TokenSpan), b: BaseCustomType) -> Option<
    (Seq<u8>, AutoGrouping, Seq<BodyItem>, (TokenKindView, Seq<u8>, TokenSpan)),
> {
    let st1 = step_state(st);
    match st.0 {
        TokenKindView::Identifier(name) => if (b == BaseCustomType::Collectable || b == BaseCustomType::CollectableGroup)
            && st1.0 == TokenKindView::Colon {
            match body_read(step_state(st1), b == BaseCustomType::CollectableGroup) {
                Some((g, items, st_end)) => if st_end.0 == TokenKindView::Keyword(Keyword::End) && step_state(
                    st_end,
                ).0 == TokenKindView::Semicolon {
                    Some((name, g, items, step_state(step_state(st_end))))
                } else {
                    None
                },
                None => None,
            }
        } else {
            None
        },
        _ => None,
    }
}

/// A definition with a body from `st`, at its base type: the base type,
/// the name, the grouping, the members and the place after its `end ;`.
pub open spec fn body_item_read(st: (TokenKindView, Seq<u8>, TokenSpan)) -> Option<
    (BaseCustomType, Seq<u8>, AutoGrouping, Seq<BodyItem>, (TokenKindView, Seq<u8>, TokenSpan)),
> {
    match st.0 {
        TokenKindView::Keyword(w) => match base_type_read(w, kind_at(st.0, st.1, st.2, 1)) {
            Some((b, m)) => match body_definition_read(after_advances(st.0, st.1, st.2, m), b) {
                Some((name, g, items, st_after)) => Some((b, name, g, items, st_after)),
                None => None,
            },
            None => None,
        },
        _ => None,
    }
}

/// Whether a definition with a body that reads from `st`, of a new name
/// and with members that can all be added, is read into `a1` from `a0`,
/// and the end of the file follows it: then `r` is `Done`.
pub open spec fn body_program_read(
    st: (TokenKindView, Seq<u8>, TokenSpan),
    a0: Ast,
    a1: Ast,
    r: Result<ProgramStep, ParseErrorKind>,
) -> bool {
    match body_item_read(st) {
        Some((b, name, g, items, st_after)) => (find_type(a0.spec_types(), name) is None && body_fresh(
            a0.spec_types(),
            a0.spec_scopes(),
            name,
            items,
        ) && st_after.0 is Eof) ==> (r matches Ok(ProgramStep::Done)) && body_added(
            a0.spec_types(),
            a0.spec_scopes(),
            a1.spec_types(),
            a1.spec_scopes(),
            b,
            name,
            g,
            items,
        ),
        None => true,
    }
}

/// Whether the types `t1` keep the names and kinds of `t0` and add, by name
/// and kind, the type of base `b` named `label` and a type to be defined
/// later for each name that the blocks of `items` list.
pub open spec fn body_named(t0: Seq<Type>, t1: Seq<Type>, b: BaseCustomType, label: Seq<u8>, items: Seq<BodyItem>) -> bool {
    let names = items_names(items);
    let n = t0.len();
    &&& t1.len() == n + 1 + names.len()
    &&& forall|i: int|
        0 <= i < n ==> same_kind(#[trigger] t0[i], t1[i]) && type_name_bytes(t1[i]) == type_name_bytes(t0[i])
    &&& type_name_bytes(t1[n as int]) == label
    &&& t1[n as int] matches Type::Custom(c) && custom_base(c) == b
    &&& forall|j: int|
        0 <= j < names.len() ==> type_name_bytes(#[trigger] t1[n + 1 + j]) == names[j].0 && (t1[n + 1
            + j] matches Type::Custom(c) && custom_base(c) == BaseCustomType::EarlyRef)
}

/// A body added stays added by name and kind while names and kinds are
/// kept.
proof fn lemma_body_named(
    t0: Seq<Type>,
    s0: Seq<Scope>,
    t1: Seq<Type>,
    s1: Seq<Scope>,
    t2: Seq<Type>,
    b: BaseCustomType,
    label: Seq<u8>,
    g: AutoGrouping,
    items: Seq<BodyItem>,
)
    requires
        body_added(t0, s0, t1, s1, b, label, g, items),
        types_kept(t1, t2),
    ensures
        body_named(t0, t2, b, label, items),
{
    reveal(body_added);
    let n = t0.len() as int;
    let names = items_names(items);
    assert forall|i: int| 0 <= i < n implies same_kind(#[trigger] t0[i], t2[i]) && type_name_bytes(t2[i])
        == type_name_bytes(t0[i]) by {
        assert(t1[i] == t1.take(n)[i]);
        assert(same_kind(t1[i], t2[i]));
        lemma_same_kind_refl(t0[i]);
    }
    assert(same_kind(t1[n], t2[n]));
    assert forall|j: int| 0 <= j < names.len() implies type_name_bytes(#[trigger] t2[n + 1 + j]) == names[j].0
        && (t2[n + 1 + j] matches Type::Custom(c) && custom_base(c) == BaseCustomType::EarlyRef) by {
        assert(same_kind(t1[n + 1 + j], t2[n + 1 + j]));
    }
}

/// What reading the top level from the current token owes: an include is
/// handed back; a definition with no body or an empty one, of a name not
/// yet defined and followed by the end, ends the file with its type added;
/// of a name already defined, it is refused.
pub open spec fn items_read(
    k: TokenKindView,
    inp: Seq<u8>,
    span: TokenSpan,
    a0: Ast,
    a1: Ast,
    r: Result<ProgramStep, ParseErrorKind>,
) -> bool {
    &&& (k == TokenKindView::Keyword(Keyword::Include) && kind_at(k, inp, span, 1) is String && kind_at(k, inp, span, 2)
        == TokenKindView::Semicolon) ==> (r matches Ok(ProgramStep::Include(path)) && kind_at(k, inp, span, 1)
        == TokenKindView::String(path@)) && a1 == a0
    &&& simple_definition(k, inp, span) matches Some((b, name, n)) ==> if find_type(a0.spec_types(), name) is None {
        kind_at(k, inp, span, n) is Eof ==> (r matches Ok(ProgramStep::Done)) && type_added(a0, a1, b, name)
    } else {
        r matches Err(e) && is_duplicate_of(e, name)
    }
}

/// Reads a program held in memory into `ast`, up to its end or its first
/// include, whose path is handed back. A program read to its end is then
/// resolved: on success every reference of it is resolved.
#[verifier::rlimit(40)]
pub fn parse_str(filename: Arc<String>, program: &[u8], ast: &mut Ast) -> (r: Result<ProgramStep, ParseErrorKind>)
    requires
        program@.len() <= usize::MAX / 4,
        all_fit(program@),
        old(ast).wf(),
    ensures
        final(ast).wf(),
        ast_grew(*old(ast), *final(ast)),
        r matches Ok(ProgramStep::Done) ==> program_resolves(final(ast).spec_types(), final(ast).spec_scopes()),
        ({
            let span0 = TokenSpan { filename, line: 1, end_line: 1, start: 1, end: 1 };
            let (k, inp, span) = (next_kind(program@), next_rest(program@), next_span(program@, span0));
            &&& (k == TokenKindView::Keyword(Keyword::Include) && kind_at(k, inp, span, 1) is String && kind_at(k, inp, span, 2)
                == TokenKindView::Semicolon) ==> (r matches Ok(ProgramStep::Include(path)) && kind_at(k, inp, span, 1)
                == TokenKindView::String(path@)) && *final(ast) == *old(ast)
            &&& simple_definition(k, inp, span) matches Some((b, name, n)) ==> if find_type(old(ast).spec_types(), name) is None {
                kind_at(k, inp, span, n) is Eof ==> type_added(*old(ast), *final(ast), b, name) && match r {
                    Ok(step) => step is Done,
                    Err(e) => e matches ParseErrorKind::Ast(ae) && (ae is NotDefined || ae is ConflictingSuperType),
                }
            } else {
                r matches Err(e) && is_duplicate_of(e, name)
            }
            &&& match body_item_read((k, inp, span)) {
                Some((b, name, g, items, st_after)) => (find_type(old(ast).spec_types(), name) is None && body_fresh(
                    old(ast).spec_types(),
                    old(ast).spec_scopes(),
                    name,
                    items,
                ) && st_after.0 is Eof) ==> body_named(old(ast).spec_types(), final(ast).spec_types(), b, name, items)
                    && match r {
                    Ok(step) => step is Done,
                    Err(e) => e is Ast,
                },
                None => true,
            }
            &&& plain_items((k, inp, span)) matches Some(defs) ==> (defs_fresh(
                old(ast).spec_types(),
                defs,
                defs.len() as int,
            ) ==> defs_added(old(ast).spec_types(), final(ast).spec_types(), defs, defs.len() as int) && match r {
                Ok(step) => step is Done,
                Err(e) => e is Ast,
            })
        }),
{
    let mut parser = Parser::new(filename, program);
    let ghost st_first = step_state(state_of(parser));
    let step = parser.parse_program(ast)?;
    match step {
        ProgramStep::Done => {
            let ghost mid = *ast;
            let checked = ast.typecheck();
            proof {
                assert forall|i: int| 0 <= i < mid.spec_types().len() implies same_kind(
                    #[trigger] mid.spec_types()[i],
                    ast.spec_types()[i],
                ) by {
                    assert(same_kind(mid.spec_types()[i], ast.spec_types()[i]));
                }
                assert(ast_grew(mid, *ast));
                lemma_ast_grew_trans(*old(ast), mid, *ast);
                lemma_type_added_kept(*old(ast), mid, *ast);
                lemma_defs_added_kept(old(ast).spec_types(), mid.spec_types(), ast.spec_types());
                if let Some((b, name, g, items, st_after)) = body_item_read(st_first) {
                    if find_type(old(ast).spec_types(), name) is None && body_fresh(old(ast).spec_types(), old(ast).spec_scopes(), name, items) && st_after.0 is Eof {
                        lemma_body_named(old(ast).spec_types(), old(ast).spec_scopes(), mid.spec_types(), mid.spec_scopes(), ast.spec_types(), b, name, g, items);
                    }
                }
            }
            match checked {
                Ok(()) => Ok(ProgramStep::Done),
                Err(e) => Err(ParseErrorKind::Ast(e)),
            }
        },
        other => Ok(other),
    }
}

} // verus!
