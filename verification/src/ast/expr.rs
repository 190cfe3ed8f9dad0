use vstd::prelude::*;
use crate::compile::token::{TokenSpan, TokenValue, join_spans};
use super::ItemRef;
use super::oper::{BinaryOperator, PostfixListOperator, PrefixOperator, binary_precedence, prefix_precedence};
use super::primary::TimeSpanPart;
use super::ty::PrimitiveType;
use super::var::{ScopeFilter, ScopeKind, VarRef};

verus! {

#[derive(Debug, Copy, Clone, PartialEq, Eq, Hash, Structural)]
pub enum ExpressionKind {
    Literal,
    Var,
    SpecialVar,
    UnaryOp,
    BinaryOp,
    ListOp,
}

/// The source text of a decimal or percentage literal: the digits with their
/// point, and whether a percent sign followed them. Reading the number is
/// left to the caller.
#[derive(Debug)]
pub struct DecimalSource {
    pub digits: Vec<u8>,
    pub percent: bool,
}

/// A constant written in the source.
#[derive(Debug)]
pub enum Literal {
    Option(TokenValue<bool>),
    Text(TokenValue<Vec<u8>>),
    LocalizedText(TokenValue<Vec<u8>>),
    Integer(TokenValue<i64>),
    Decimal(TokenValue<DecimalSource>),
    TimeSpan(Vec<TimeSpanPart>),
    Object(Vec<(TokenValue<Vec<u8>>, Expr)>),
    Array(Vec<Expr>),
}

/// The primitive type of each kind of literal.
pub open spec fn literal_type(l: Literal) -> PrimitiveType {
    match l {
        Literal::Option(_) => PrimitiveType::Option,
        Literal::Text(_) => PrimitiveType::Text,
        Literal::LocalizedText(_) => PrimitiveType::LocalizedText,
        Literal::Integer(_) => PrimitiveType::Integer,
        Literal::Decimal(_) => PrimitiveType::Decimal,
        Literal::TimeSpan(_) => PrimitiveType::TimeSpan,
        Literal::Object(_) => PrimitiveType::Object,
        Literal::Array(_) => PrimitiveType::Array,
    }
}

impl Literal {
    pub fn primitive_type(&self) -> (r: PrimitiveType)
        ensures
            r == literal_type(*self),
    {
        match self {
            Literal::Option(_) => PrimitiveType::Option,
            Literal::Text(_) => PrimitiveType::Text,
            Literal::LocalizedText(_) => PrimitiveType::LocalizedText,
            Literal::Integer(_) => PrimitiveType::Integer,
            Literal::Decimal(_) => PrimitiveType::Decimal,
            Literal::TimeSpan(_) => PrimitiveType::TimeSpan,
            Literal::Object(_) => PrimitiveType::Object,
            Literal::Array(_) => PrimitiveType::Array,
        }
    }
}

/// A literal with the index of its type in the program's types.
#[derive(Debug)]
pub struct ExprLiteral {
    pub literal: Literal,
    pub ty: usize,
}

impl ExprLiteral {
    pub fn new(literal: Literal, ty: usize) -> (r: Self)
        ensures
            r.literal == literal,
            r.ty == ty,
    {
        ExprLiteral { literal, ty }
    }
}

/// A name read as a variable, looked up in the scopes that its filter allows.
#[derive(Debug)]
pub struct ExprVar {
    pub name: TokenValue<Vec<u8>>,
    pub scope_filter: ScopeFilter,
    pub var: Option<VarRef>,
}

impl ExprVar {
    pub fn new(name: TokenValue<Vec<u8>>, scope_filter: ScopeFilter) -> (r: Self)
        ensures
            r.name == name,
            r.scope_filter == scope_filter,
            r.var is None,
    {
        ExprVar { name, scope_filter, var: None }
    }
}

#[derive(Debug)]
pub struct PrefixExpr {
    pub operator: TokenValue<PrefixOperator>,
    pub subexpr: Box<Expr>,
    pub ty: Option<ItemRef>,
    pub span: TokenSpan,
}

impl PrefixExpr {
    /// An operator applied to an expression; the span runs from the
    /// operator to the end of the operand.
    pub fn new(operator: TokenValue<PrefixOperator>, subexpr: Expr) -> (r: Self)
        requires
            expr_has_span(subexpr),
        ensures
            r.operator == operator,
            *r.subexpr == subexpr,
            r.ty is None,
            r.span == join_spans(operator.spec_span(), expr_span(subexpr)),
    {
        let span = operator.span().from_to(subexpr.span());
        PrefixExpr { operator, subexpr: Box::new(subexpr), ty: None, span }
    }
}

#[derive(Debug)]
pub struct BinaryExpr {
    pub operator: TokenValue<BinaryOperator>,
    pub left: Box<Expr>,
    pub right: Box<Expr>,
    pub ty: Option<ItemRef>,
    pub span: TokenSpan,
}

impl BinaryExpr {
    /// Two operands joined by an operator; the span runs from the start of
    /// the left operand to the end of the right.
    pub fn new(operator: TokenValue<BinaryOperator>, left: Expr, right: Expr) -> (r: Self)
        requires
            expr_has_span(left),
            expr_has_span(right),
        ensures
            r.operator == operator,
            *r.left == left,
            *r.right == right,
            r.ty is None,
            r.span == join_spans(expr_span(left), expr_span(right)),
    {
        let span = left.span().from_to(right.span());
        BinaryExpr { operator, left: Box::new(left), right: Box::new(right), ty: None, span }
    }
}

#[derive(Debug)]
pub struct PostfixListExpr {
    pub operator: TokenValue<PostfixListOperator>,
    pub left: Box<Expr>,
    pub right: Vec<Expr>,
    pub ty: Option<ItemRef>,
    pub span: TokenSpan,
}

impl PostfixListExpr {
    /// A call or an index: the span runs from the start of the operand to
    /// the end of the opening bracket.
    pub fn new(operator: TokenValue<PostfixListOperator>, left: Expr, right: Vec<Expr>) -> (r:
        Self)
        requires
            expr_has_span(left),
        ensures
            r.operator == operator,
            *r.left == left,
            r.right == right,
            r.ty is None,
            r.span == join_spans(expr_span(left), operator.spec_span()),
    {
        let span = left.span().from_to(operator.span());
        PostfixListExpr { operator, left: Box::new(left), right, ty: None, span }
    }
}

/// An expression of the language.
#[derive(Debug)]
pub enum Expr {
    Literal(ExprLiteral),
    Var(ExprVar),
    Prefix(PrefixExpr),
    Binary(BinaryExpr),
    PostfixList(PostfixListExpr),
}

/// Whether a literal has a place in the source: object and array literals
/// have none, and a time span has one when it has a part.
pub open spec fn literal_has_span(l: Literal) -> bool {
    match l {
        Literal::TimeSpan(parts) => parts.len() > 0,
        Literal::Object(_) => false,
        Literal::Array(_) => false,
        _ => true,
    }
}

pub open spec fn literal_span(l: Literal) -> TokenSpan {
    match l {
        Literal::Option(v) => v.spec_span(),
        Literal::Text(v) => v.spec_span(),
        Literal::LocalizedText(v) => v.spec_span(),
        Literal::Integer(v) => v.spec_span(),
        Literal::Decimal(v) => v.spec_span(),
        Literal::TimeSpan(parts) => parts[0].spec_span(),
        _ => arbitrary(),
    }
}

pub open spec fn expr_has_span(e: Expr) -> bool {
    match e {
        Expr::Literal(l) => literal_has_span(l.literal),
        _ => true,
    }
}

/// Where an expression stands in the source.
pub open spec fn expr_span(e: Expr) -> TokenSpan {
    match e {
        Expr::Literal(l) => literal_span(l.literal),
        Expr::Var(v) => v.name.spec_span(),
        Expr::Prefix(p) => p.span,
        Expr::Binary(b) => b.span,
        Expr::PostfixList(p) => p.span,
    }
}

/// Whether an expression's value is known without running the program.
pub open spec fn expr_is_constant(e: Expr) -> bool
    decreases e,
{
    match e {
        Expr::Literal(l) => !(l.literal is Object || l.literal is Array),
        Expr::Var(_) => false,
        Expr::Prefix(p) => expr_is_constant(*p.subexpr),
        Expr::Binary(b) => expr_is_constant(*b.left) && expr_is_constant(*b.right),
        Expr::PostfixList(_) => false,
    }
}

impl Expr {
    pub fn span(&self) -> (r: &TokenSpan)
        requires
            expr_has_span(*self),
        ensures
            *r == expr_span(*self),
    {
        match self {
            Expr::Literal(l) => match &l.literal {
                Literal::Option(v) => v.span(),
                Literal::Text(v) => v.span(),
                Literal::LocalizedText(v) => v.span(),
                Literal::Integer(v) => v.span(),
                Literal::Decimal(v) => v.span(),
                Literal::TimeSpan(parts) => parts[0].span(),
                _ => vstd::pervasive::unreached(),
            },
            Expr::Var(v) => v.name.span(),
            Expr::Prefix(p) => &p.span,
            Expr::Binary(b) => &b.span,
            Expr::PostfixList(p) => &p.span,
        }
    }

    pub fn kind(&self) -> (r: ExpressionKind)
        ensures
            r == match *self {
                Expr::Literal(_) => ExpressionKind::Literal,
                Expr::Var(_) => ExpressionKind::Var,
                Expr::Prefix(_) => ExpressionKind::UnaryOp,
                Expr::Binary(_) => ExpressionKind::BinaryOp,
                Expr::PostfixList(_) => ExpressionKind::ListOp,
            },
    {
        match self {
            Expr::Literal(_) => ExpressionKind::Literal,
            Expr::Var(_) => ExpressionKind::Var,
            Expr::Prefix(_) => ExpressionKind::UnaryOp,
            Expr::Binary(_) => ExpressionKind::BinaryOp,
            Expr::PostfixList(_) => ExpressionKind::ListOp,
        }
    }

    pub fn is_constant(&self) -> (r: bool)
        ensures
            r == expr_is_constant(*self),
        decreases *self,
    {
        match self {
            Expr::Literal(l) => match &l.literal {
                Literal::Object(_) => false,
                Literal::Array(_) => false,
                _ => true,
            },
            Expr::Var(_) => false,
            Expr::Prefix(p) => p.subexpr.is_constant(),
            Expr::Binary(b) => b.left.is_constant() && b.right.is_constant(),
            Expr::PostfixList(_) => false,
        }
    }

    /// The binding strength of the expression's own operator.
    pub fn precedence(&self) -> (r: u8)
        ensures
            r == 0,
    {
        0
    }

    /// Gives a variable a new filter; other expressions refuse it.
    pub fn set_scope_filter(&mut self, filter: ScopeFilter) -> (r: bool)
        ensures
            r == (*old(self) is Var),
            match *old(self) {
                Expr::Var(v) => *final(self) == Expr::Var(
                    ExprVar { name: v.name, scope_filter: filter, var: v.var },
                ),
                _ => *final(self) == *old(self),
            },
    {
        match self {
            Expr::Var(v) => {
                v.scope_filter = filter;
                true
            },
            _ => false,
        }
    }

    /// Gives a variable's filter a new kind; other expressions refuse it.
    pub fn set_scope_filter_kind(&mut self, kind: ScopeKind) -> (r: bool)
        ensures
            r == (*old(self) is Var),
            match *old(self) {
                Expr::Var(v) => *final(self) == Expr::Var(
                    ExprVar {
                        name: v.name,
                        scope_filter: ScopeFilter { scope: v.scope_filter.scope, kind },
                        var: v.var,
                    },
                ),
                _ => *final(self) == *old(self),
            },
    {
        match self {
            Expr::Var(v) => {
                v.scope_filter.kind = kind;
                true
            },
            _ => false,
        }
    }
}


/// The precedence an operator written after `e` must stay below for `e` to
/// become its left operand: one above a binary operator's own (its own for
/// the right-associative `^`), a prefix operator's own, and above every
/// operator for the rest.
pub open spec fn bind_limit(e: Expr) -> int {
    match e {
        Expr::Binary(b) => binary_precedence(b.operator.spec_value()) + if b.operator.spec_value()
            == BinaryOperator::Pow {
            0int
        } else {
            1int
        },
        Expr::Prefix(p) => if p.operator.spec_value() == PrefixOperator::Parens {
            9
        } else {
            prefix_precedence(p.operator.spec_value()) as int
        },
        _ => 9,
    }
}

/// Whether the operator at the top of `e` binds at least as tightly as
/// `q`.
pub open spec fn top_binds(e: Expr, q: int) -> bool {
    match e {
        Expr::Binary(b) => binary_precedence(b.operator.spec_value()) >= q,
        Expr::PostfixList(_) => 7 >= q,
        _ => true,
    }
}

/// Whether the operators of an expression nest as their precedences and
/// associativity say: tighter operators lie deeper, a left-associative
/// operator's left operand may hold it again, a right-associative one's
/// right operand may, and calls and indexes bind tightest.
pub open spec fn respects_precedence(e: Expr) -> bool
    decreases e,
{
    match e {
        Expr::Binary(b) => {
            let op = b.operator.spec_value();
            let right_limit = binary_precedence(op) + if op == BinaryOperator::Pow {
                0int
            } else {
                1int
            };
            &&& respects_precedence(*b.left)
            &&& respects_precedence(*b.right)
            &&& binary_precedence(op) < bind_limit(*b.left)
            &&& top_binds(*b.right, right_limit)
        },
        Expr::Prefix(p) => respects_precedence(*p.subexpr) && top_binds(
            *p.subexpr,
            prefix_precedence(p.operator.spec_value()) as int,
        ),
        Expr::PostfixList(p) => respects_precedence(*p.left) && 7 < bind_limit(*p.left)
            && all_respect_precedence(p.right@),
        _ => true,
    }
}

pub open spec fn all_respect_precedence(es: Seq<Expr>) -> bool
    decreases es,
{
    if es.len() == 0 {
        true
    } else {
        all_respect_precedence(es.drop_last()) && respects_precedence(es.last())
    }
}

} // verus!
