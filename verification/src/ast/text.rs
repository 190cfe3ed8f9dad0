use vstd::prelude::*;
use vstd::string::StringSliceAdditionalSpecFns;
use crate::compile::token::{TokenSpan, TokenValue, name_bytes};
use super::expr::{Expr, Literal};
use super::oper::{BinaryOperator, PostfixListOperator, PrefixOperator};
use super::primary::{TimeSpanPart, unit_name};
use super::tree::{append_bytes, decimal_bytes, decimal_text};

verus! {

/// A whole number in decimal digits, after `-` when it is negative.
pub open spec fn int_text(v: int) -> Seq<u8> {
    if v < 0 {
        seq![45u8] + decimal_text((-v) as nat)
    } else {
        decimal_text(v as nat)
    }
}

/// A part of a time span: its amount, a space and its unit.
pub open spec fn part_text(p: TimeSpanPart) -> Seq<u8> {
    int_text(p.spec_amount() as int) + seq![32u8] + unit_name(p.spec_unit()).spec_bytes()
}

/// The parts of a time span, a space between each two.
pub open spec fn parts_text(ps: Seq<TimeSpanPart>) -> Seq<u8>
    decreases ps.len(),
{
    if ps.len() == 0 {
        seq![]
    } else if ps.len() == 1 {
        part_text(ps[0])
    } else {
        parts_text(ps.drop_last()) + seq![32u8] + part_text(ps.last())
    }
}

/// Whether a literal can be written out: a decimal is written through its
/// floating-point value, and object and array literals have no text.
pub open spec fn literal_printable(l: Literal) -> bool {
    !(l is Decimal || l is Object || l is Array)
}

/// A literal written out: `yes` or `no`, the text itself, the number, or
/// the parts of the time span.
pub open spec fn literal_text(l: Literal) -> Seq<u8> {
    match l {
        Literal::Option(o) => if o.spec_value() {
            "yes".spec_bytes()
        } else {
            "no".spec_bytes()
        },
        Literal::Text(t) => name_bytes(t),
        Literal::LocalizedText(t) => name_bytes(t),
        Literal::Integer(i) => int_text(i.spec_value() as int),
        Literal::TimeSpan(parts) => parts_text(parts@),
        _ => seq![],
    }
}

/// Whether an expression can be written out: it holds no literal that
/// cannot, and no call or index, whose arguments are written in the form
/// that their derived debugging output has.
pub open spec fn expr_printable(e: Expr) -> bool
    decreases e,
{
    match e {
        Expr::Var(_) => true,
        Expr::Literal(l) => literal_printable(l.literal),
        Expr::Prefix(p) => expr_printable(*p.subexpr),
        Expr::Binary(b) => expr_printable(*b.left) && expr_printable(*b.right),
        Expr::PostfixList(_) => false,
    }
}

/// An expression written out: a variable by its name, an operator before
/// (and for brackets after) its operand, a binary operator between its
/// operands with a space on each side.
pub open spec fn expr_text(e: Expr) -> Seq<u8>
    decreases e,
{
    match e {
        Expr::Var(v) => name_bytes(v.name),
        Expr::Literal(l) => literal_text(l.literal),
        Expr::Prefix(p) => p.operator.spec_value().str_before_spec().spec_bytes() + expr_text(*p.subexpr)
            + match p.operator.spec_value().str_after_spec() {
            Some(a) => a.spec_bytes(),
            None => seq![],
        },
        Expr::Binary(b) => expr_text(*b.left) + seq![32u8] + b.operator.spec_value().as_str_spec().spec_bytes()
            + seq![32u8] + expr_text(*b.right),
        Expr::PostfixList(_) => seq![],
    }
}

/// Writes a whole number in decimal.
pub fn int_bytes(v: i64) -> (r: Vec<u8>)
    ensures
        r@ == int_text(v as int),
{
    if v < 0 {
        let m: u64 = (0i128 - (v as i128)) as u64;
        let mut r: Vec<u8> = Vec::new();
        r.push(45u8);
        let d = decimal_bytes(m);
        append_bytes(&mut r, d.as_slice());
        r
    } else {
        decimal_bytes(v as u64)
    }
}

fn push_part(out: &mut Vec<u8>, p: &TimeSpanPart)
    ensures
        final(out)@ == old(out)@ + part_text(*p),
{
    let amount = int_bytes(p.amount() as i64);
    append_bytes(out, amount.as_slice());
    out.push(32u8);
    append_bytes(out, p.unit().as_str().as_bytes());
    assert(final(out)@ =~= old(out)@ + part_text(*p));
}

impl Literal {
    /// The literal written out.
    pub fn to_text(&self) -> (r: Vec<u8>)
        requires
            literal_printable(*self),
        ensures
            r@ == literal_text(*self),
    {
        let mut out: Vec<u8> = Vec::new();
        match self {
            Literal::Option(o) => if *o.value() {
                append_bytes(&mut out, "yes".as_bytes());
            } else {
                append_bytes(&mut out, "no".as_bytes());
            },
            Literal::Text(t) => append_bytes(&mut out, t.value().as_slice()),
            Literal::LocalizedText(t) => append_bytes(&mut out, t.value().as_slice()),
            Literal::Integer(i) => {
                let d = int_bytes(*i.value());
                append_bytes(&mut out, d.as_slice());
            },
            Literal::TimeSpan(parts) => {
                let mut k: usize = 0;
                while k < parts.len()
                    invariant
                        k <= parts@.len(),
                        out@ == parts_text(parts@.take(k as int)),
                    decreases parts@.len() - k,
                {
                    proof {
                        assert(parts@.take(k + 1).drop_last() =~= parts@.take(k as int));
                        assert(parts@.take(k + 1).last() == parts@[k as int]);
                    }
                    if k > 0 {
                        out.push(32u8);
                    }
                    push_part(&mut out, &parts[k]);
                    proof {
                        if k == 0 {
                            assert(out@ =~= part_text(parts@[0]));
                        } else {
                            assert(out@ =~= parts_text(parts@.take(k as int)) + seq![32u8] + part_text(parts@[k as int]));
                        }
                    }
                    k = k + 1;
                }
                assert(parts@.take(parts@.len() as int) =~= parts@);
            },
            _ => {},
        }
        assert(out@ =~= literal_text(*self));
        out
    }
}

/// Writes an expression at the end of `out`.
fn push_expr(out: &mut Vec<u8>, e: &Expr)
    requires
        expr_printable(*e),
    ensures
        final(out)@ == old(out)@ + expr_text(*e),
    decreases *e,
{
    match e {
        Expr::Var(v) => append_bytes(out, v.name.value().as_slice()),
        Expr::Literal(l) => {
            let t = l.literal.to_text();
            append_bytes(out, t.as_slice());
        },
        Expr::Prefix(p) => {
            let op = *p.operator.value();
            append_bytes(out, op.str_before().as_bytes());
            push_expr(out, &*p.subexpr);
            if let Some(after) = op.str_after() {
                append_bytes(out, after.as_bytes());
            }
        },
        Expr::Binary(b) => {
            push_expr(out, &*b.left);
            out.push(32u8);
            append_bytes(out, b.operator.value().as_str().as_bytes());
            out.push(32u8);
            push_expr(out, &*b.right);
        },
        Expr::PostfixList(_) => {},
    }
    assert(final(out)@ =~= old(out)@ + expr_text(*e));
}

/// Whether an expression can be written out by `to_text`.
fn printable(e: &Expr) -> (r: bool)
    ensures
        r == expr_printable(*e),
    decreases *e,
{
    match e {
        Expr::Var(_) => true,
        Expr::Literal(l) => !matches!(l.literal, Literal::Decimal(_) | Literal::Object(_) | Literal::Array(_)),
        Expr::Prefix(p) => printable(&*p.subexpr),
        Expr::Binary(b) => printable(&*b.left) && printable(&*b.right),
        Expr::PostfixList(_) => false,
    }
}

impl Expr {
    /// Whether the expression can be written out by `to_text`.
    pub fn is_printable(&self) -> (r: bool)
        ensures
            r == expr_printable(*self),
    {
        printable(self)
    }

    /// The expression written out.
    pub fn to_text(&self) -> (r: Vec<u8>)
        requires
            expr_printable(*self),
        ensures
            r@ == expr_text(*self),
    {
        let mut out: Vec<u8> = Vec::new();
        push_expr(&mut out, self);
        assert(out@ =~= expr_text(*self));
        out
    }
}

/// The bracket that opens the arguments of a call or an index.
pub open spec fn postfix_open(op: PostfixListOperator) -> u8 {
    match op {
        PostfixListOperator::Call => 40u8,
        PostfixListOperator::Idx => 91u8,
    }
}

/// The bracket that closes the arguments of a call or an index.
pub open spec fn postfix_close(op: PostfixListOperator) -> u8 {
    match op {
        PostfixListOperator::Call => 41u8,
        PostfixListOperator::Idx => 93u8,
    }
}

/// A prefix operator written around the text of its operand: the operator
/// before it, and for brackets the closing one after it.
pub fn prefix_layout(op: PrefixOperator, operand: &[u8]) -> (r: Vec<u8>)
    ensures
        r@ == op.str_before_spec().spec_bytes() + operand@ + match op.str_after_spec() {
            Some(a) => a.spec_bytes(),
            None => seq![],
        },
{
    let mut out: Vec<u8> = Vec::new();
    append_bytes(&mut out, op.str_before().as_bytes());
    append_bytes(&mut out, operand);
    if let Some(after) = op.str_after() {
        append_bytes(&mut out, after.as_bytes());
    }
    assert(out@ =~= op.str_before_spec().spec_bytes() + operand@ + match op.str_after_spec() {
        Some(a) => a.spec_bytes(),
        None => seq![],
    });
    out
}

/// A binary operator written between the texts of its operands, with a
/// space on each side.
pub fn binary_layout(op: BinaryOperator, left: &[u8], right: &[u8]) -> (r: Vec<u8>)
    ensures
        r@ == left@ + seq![32u8] + op.as_str_spec().spec_bytes() + seq![32u8] + right@,
{
    let mut out: Vec<u8> = Vec::new();
    append_bytes(&mut out, left);
    out.push(32u8);
    append_bytes(&mut out, op.as_str().as_bytes());
    out.push(32u8);
    append_bytes(&mut out, right);
    assert(out@ =~= left@ + seq![32u8] + op.as_str_spec().spec_bytes() + seq![32u8] + right@);
    out
}

/// A call or an index written out: the text of what is called or indexed,
/// then the text of the arguments in their brackets.
pub fn postfix_layout(op: PostfixListOperator, left: &[u8], args: &[u8]) -> (r: Vec<u8>)
    ensures
        r@ == left@ + seq![postfix_open(op)] + args@ + seq![postfix_close(op)],
{
    let mut out: Vec<u8> = Vec::new();
    append_bytes(&mut out, left);
    let (open, close) = match op {
        PostfixListOperator::Call => (40u8, 41u8),
        PostfixListOperator::Idx => (91u8, 93u8),
    };
    out.push(open);
    append_bytes(&mut out, args);
    out.push(close);
    assert(out@ =~= left@ + seq![postfix_open(op)] + args@ + seq![postfix_close(op)]);
    out
}

/// A place in the source as text: the file name, then the line and the
/// column of its start in brackets.
pub open spec fn span_text(s: TokenSpan) -> Seq<u8> {
    vstd::utf8::encode_utf8(s.filename@) + seq![58u8, 32u8, 40u8] + decimal_text(s.line as nat) + seq![44u8, 32u8]
        + decimal_text(s.start as nat) + seq![41u8]
}

/// A number read from the source as text: where it stands, then the
/// number.
pub open spec fn int_value_text(v: TokenValue<i64>) -> Seq<u8> {
    span_text(v.spec_span()) + seq![58u8, 32u8] + int_text(v.spec_value() as int)
}

/// Writes a number read from the source with its place.
pub fn int_value_bytes(v: &TokenValue<i64>) -> (r: Vec<u8>)
    ensures
        r@ == int_value_text(*v),
{
    let span = v.span();
    let mut out: Vec<u8> = Vec::new();
    append_bytes(&mut out, span.filename.as_str().as_bytes());
    out.push(58u8);
    out.push(32u8);
    out.push(40u8);
    append_bytes(&mut out, decimal_bytes(span.line as u64).as_slice());
    out.push(44u8);
    out.push(32u8);
    append_bytes(&mut out, decimal_bytes(span.start as u64).as_slice());
    out.push(41u8);
    out.push(58u8);
    out.push(32u8);
    append_bytes(&mut out, int_bytes(*v.value()).as_slice());
    assert(out@ =~= int_value_text(*v));
    out
}

} // verus!
