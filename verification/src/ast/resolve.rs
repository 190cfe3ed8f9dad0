use vstd::prelude::*;
use crate::compile::token::{TokenValue, name_bytes, slice_to_vec};
use super::AstErrorKind;
use super::expr::{Expr, ExprVar, Literal};
use super::var::{Scope, Scopes, VarRef, scope_find_filtered, scopes_wf};

verus! {

broadcast use vstd::std_specs::vec::group_vec_axioms;

/// What a lookup of the variable finds through its filter.
pub open spec fn var_lookup(v: ExprVar, sc: Seq<Scope>) -> Option<VarRef> {
    scope_find_filtered(sc, v.scope_filter.scope as int, name_bytes(v.name), v.scope_filter.kind@)
}

/// The lookups of variables in the scopes `sc`.
pub open spec fn lookup_in(sc: Seq<Scope>) -> spec_fn(ExprVar) -> Option<VarRef> {
    |v: ExprVar| var_lookup(v, sc)
}

/// Whether every variable named in the expression is found through its
/// filter.
pub open spec fn expr_found(e: Expr, look: spec_fn(ExprVar) -> Option<VarRef>) -> bool
    decreases e,
{
    match e {
        Expr::Var(v) => look(v) is Some,
        Expr::Literal(l) => match l.literal {
            Literal::Array(items) => exprs_found(items@, look),
            Literal::Object(fields) => fields_found(fields@, look),
            _ => true,
        },
        Expr::Prefix(p) => expr_found(*p.subexpr, look),
        Expr::Binary(b) => expr_found(*b.left, look) && expr_found(*b.right, look),
        Expr::PostfixList(p) => expr_found(*p.left, look) && exprs_found(p.right@, look),
    }
}

pub open spec fn exprs_found(es: Seq<Expr>, look: spec_fn(ExprVar) -> Option<VarRef>) -> bool
    decreases es,
{
    if es.len() == 0 {
        true
    } else {
        exprs_found(es.drop_last(), look) && expr_found(es.last(), look)
    }
}

pub open spec fn fields_found(fs: Seq<(TokenValue<Vec<u8>>, Expr)>, look: spec_fn(ExprVar) -> Option<VarRef>) -> bool
    decreases fs,
{
    if fs.len() == 0 {
        true
    } else {
        fields_found(fs.drop_last(), look) && expr_found(fs.last().1, look)
    }
}

/// Whether every variable's filter names a scope that exists.
pub open spec fn expr_scopes_in(e: Expr, n: nat) -> bool
    decreases e,
{
    match e {
        Expr::Var(v) => v.scope_filter.scope < n,
        Expr::Literal(l) => match l.literal {
            Literal::Array(items) => exprs_scopes_in(items@, n),
            Literal::Object(fields) => fields_scopes_in(fields@, n),
            _ => true,
        },
        Expr::Prefix(p) => expr_scopes_in(*p.subexpr, n),
        Expr::Binary(b) => expr_scopes_in(*b.left, n) && expr_scopes_in(*b.right, n),
        Expr::PostfixList(p) => expr_scopes_in(*p.left, n) && exprs_scopes_in(p.right@, n),
    }
}

pub open spec fn exprs_scopes_in(es: Seq<Expr>, n: nat) -> bool
    decreases es,
{
    if es.len() == 0 {
        true
    } else {
        exprs_scopes_in(es.drop_last(), n) && expr_scopes_in(es.last(), n)
    }
}

pub open spec fn fields_scopes_in(fs: Seq<(TokenValue<Vec<u8>>, Expr)>, n: nat) -> bool
    decreases fs,
{
    if fs.len() == 0 {
        true
    } else {
        fields_scopes_in(fs.drop_last(), n) && expr_scopes_in(fs.last().1, n)
    }
}

/// Whether `e1` is `e0` with every variable recording what its lookup finds.
pub open spec fn expr_resolved(e0: Expr, e1: Expr, look: spec_fn(ExprVar) -> Option<VarRef>) -> bool
    decreases e0,
{
    match (e0, e1) {
        (Expr::Var(v0), Expr::Var(v1)) => v1.name == v0.name && v1.scope_filter == v0.scope_filter
            && v1.var == look(v0),
        (Expr::Literal(l0), Expr::Literal(l1)) => l1.ty == l0.ty && match (l0.literal, l1.literal) {
            (Literal::Array(a0), Literal::Array(a1)) => exprs_resolved(a0@, a1@, look),
            (Literal::Object(f0), Literal::Object(f1)) => fields_resolved(f0@, f1@, look),
            (Literal::Array(_), _) => false,
            (Literal::Object(_), _) => false,
            (x, y) => x == y,
        },
        (Expr::Prefix(p0), Expr::Prefix(p1)) => p1.operator == p0.operator && p1.ty == p0.ty && p1.span
            == p0.span && expr_resolved(*p0.subexpr, *p1.subexpr, look),
        (Expr::Binary(b0), Expr::Binary(b1)) => b1.operator == b0.operator && b1.ty == b0.ty && b1.span
            == b0.span && expr_resolved(*b0.left, *b1.left, look) && expr_resolved(*b0.right, *b1.right, look),
        (Expr::PostfixList(p0), Expr::PostfixList(p1)) => p1.operator == p0.operator && p1.ty == p0.ty
            && p1.span == p0.span && expr_resolved(*p0.left, *p1.left, look) && exprs_resolved(
            p0.right@,
            p1.right@,
            look,
        ),
        _ => false,
    }
}

pub open spec fn exprs_resolved(es0: Seq<Expr>, es1: Seq<Expr>, look: spec_fn(ExprVar) -> Option<VarRef>) -> bool
    decreases es0,
{
    if es0.len() == 0 {
        es1.len() == 0
    } else {
        es1.len() == es0.len() && exprs_resolved(es0.drop_last(), es1.drop_last(), look) && expr_resolved(
            es0.last(),
            es1.last(),
            look,
        )
    }
}

pub open spec fn fields_resolved(
    fs0: Seq<(TokenValue<Vec<u8>>, Expr)>,
    fs1: Seq<(TokenValue<Vec<u8>>, Expr)>,
    look: spec_fn(ExprVar) -> Option<VarRef>,
) -> bool
    decreases fs0,
{
    if fs0.len() == 0 {
        fs1.len() == 0
    } else {
        fs1.len() == fs0.len() && fields_resolved(fs0.drop_last(), fs1.drop_last(), look)
            && fs1.last().0 == fs0.last().0 && expr_resolved(fs0.last().1, fs1.last().1, look)
    }
}

/// Looks up every variable named in an expression through its filter, in
/// the order they are written, and records what each lookup finds. The
/// first variable that is not found is an error.
pub fn resolve_expr(scopes: &Scopes, e: &mut Expr) -> (r: Result<(), AstErrorKind>)
    requires
        scopes_wf(scopes@),
        expr_scopes_in(*old(e), scopes@.len()),
    ensures
        expr_scopes_in(*final(e), scopes@.len()),
        r is Ok <==> expr_found(*old(e), lookup_in(scopes@)),
        r is Ok ==> expr_resolved(*old(e), *final(e), lookup_in(scopes@)),
        r matches Err(err) ==> (err matches AstErrorKind::NotDefined(_, _, w) && w == "variable"),
    decreases *old(e),
{
    match e {
        Expr::Var(v) => {
            match scopes.find_filtered(v.scope_filter.scope, v.name.value().as_slice(), v.scope_filter.kind) {
                Some(found) => {
                    v.var = Some(found);
                    Ok(())
                },
                None => Err(
                    AstErrorKind::NotDefined(slice_to_vec(v.name.value().as_slice()), v.name.span().clone(), "variable"),
                ),
            }
        },
        Expr::Literal(l) => match &mut l.literal {
            Literal::Array(items) => resolve_exprs(scopes, items),
            Literal::Object(fields) => resolve_fields(scopes, fields),
            _ => Ok(()),
        },
        Expr::Prefix(p) => resolve_expr(scopes, &mut *p.subexpr),
        Expr::Binary(b) => {
            resolve_expr(scopes, &mut *b.left)?;
            resolve_expr(scopes, &mut *b.right)
        },
        Expr::PostfixList(p) => {
            resolve_expr(scopes, &mut *p.left)?;
            resolve_exprs(scopes, &mut p.right)
        },
    }
}

/// Resolves each expression of a list in turn.
pub fn resolve_exprs(scopes: &Scopes, items: &mut Vec<Expr>) -> (r: Result<(), AstErrorKind>)
    requires
        scopes_wf(scopes@),
        exprs_scopes_in(old(items)@, scopes@.len()),
    ensures
        exprs_scopes_in(final(items)@, scopes@.len()),
        r is Ok <==> exprs_found(old(items)@, lookup_in(scopes@)),
        r is Ok ==> exprs_resolved(old(items)@, final(items)@, lookup_in(scopes@)),
        r matches Err(err) ==> (err matches AstErrorKind::NotDefined(_, _, w) && w == "variable"),
    decreases old(items)@,
{
    let n = items.len();
    let mut i: usize = 0;
    proof {
        assert forall|j: int| 0 <= j < n implies expr_scopes_in(#[trigger] items@[j], scopes@.len()) by {
            lemma_exprs_scopes_in_at(old(items)@, scopes@.len(), j);
        }
    }
    while i < n
        invariant
            scopes_wf(scopes@),
            n == old(items)@.len(),
            items@.len() == n,
            i <= n,
            exprs_scopes_in(old(items)@, scopes@.len()),
            exprs_found(old(items)@.take(i as int), lookup_in(scopes@)),
            exprs_resolved(old(items)@.take(i as int), items@.take(i as int), lookup_in(scopes@)),
            forall|j: int| i <= j < n ==> items@[j] == old(items)@[j],
            forall|j: int| 0 <= j < n ==> expr_scopes_in(#[trigger] items@[j], scopes@.len()),
        decreases n - i,
    {
        proof {
            lemma_exprs_scopes_in_at(old(items)@, scopes@.len(), i as int);
        }
        let ghost before = items@;
        let res = resolve_expr(scopes, &mut items[i]);
        proof {
            let o = old(items)@;
            assert(o.take(i + 1).drop_last() =~= o.take(i as int));
            assert(o.take(i + 1).last() == o[i as int]);
            assert(items@.take(i + 1).drop_last() =~= before.take(i as int));
            lemma_exprs_found_prefix(o, lookup_in(scopes@), i as int, i + 1);
        }
        if res.is_err() {
            proof {
                lemma_exprs_scopes_in_all(items@, scopes@.len());
                lemma_exprs_found_prefix(old(items)@, lookup_in(scopes@), i + 1, n as int);
                assert(old(items)@.take(n as int) =~= old(items)@);
            }
            return res;
        }
        i = i + 1;
    }
    proof {
        assert(old(items)@.take(n as int) =~= old(items)@);
        assert(items@.take(n as int) =~= items@);
        lemma_exprs_scopes_in_all(items@, scopes@.len());
    }
    Ok(())
}

/// Resolves the value of each field of an object literal in turn.
pub fn resolve_fields(scopes: &Scopes, fields: &mut Vec<(TokenValue<Vec<u8>>, Expr)>) -> (r: Result<
    (),
    AstErrorKind,
>)
    requires
        scopes_wf(scopes@),
        fields_scopes_in(old(fields)@, scopes@.len()),
    ensures
        fields_scopes_in(final(fields)@, scopes@.len()),
        r is Ok <==> fields_found(old(fields)@, lookup_in(scopes@)),
        r is Ok ==> fields_resolved(old(fields)@, final(fields)@, lookup_in(scopes@)),
        r matches Err(err) ==> (err matches AstErrorKind::NotDefined(_, _, w) && w == "variable"),
    decreases old(fields)@,
{
    let n = fields.len();
    let mut i: usize = 0;
    proof {
        assert forall|j: int| 0 <= j < n implies expr_scopes_in(#[trigger] fields@[j].1, scopes@.len()) by {
            lemma_fields_scopes_in_at(old(fields)@, scopes@.len(), j);
        }
    }
    while i < n
        invariant
            scopes_wf(scopes@),
            n == old(fields)@.len(),
            fields@.len() == n,
            i <= n,
            fields_scopes_in(old(fields)@, scopes@.len()),
            fields_found(old(fields)@.take(i as int), lookup_in(scopes@)),
            fields_resolved(old(fields)@.take(i as int), fields@.take(i as int), lookup_in(scopes@)),
            forall|j: int| i <= j < n ==> fields@[j] == old(fields)@[j],
            forall|j: int| 0 <= j < n ==> expr_scopes_in(#[trigger] fields@[j].1, scopes@.len()),
        decreases n - i,
    {
        proof {
            lemma_fields_scopes_in_at(old(fields)@, scopes@.len(), i as int);
        }
        let ghost before = fields@;
        let res = resolve_expr(scopes, &mut fields[i].1);
        proof {
            let o = old(fields)@;
            assert(o.take(i + 1).drop_last() =~= o.take(i as int));
            assert(o.take(i + 1).last() == o[i as int]);
            assert(fields@.take(i + 1).drop_last() =~= before.take(i as int));
            lemma_fields_found_prefix(o, lookup_in(scopes@), i as int, i + 1);
        }
        if res.is_err() {
            proof {
                lemma_fields_scopes_in_all(fields@, scopes@.len());
                lemma_fields_found_prefix(old(fields)@, lookup_in(scopes@), i + 1, n as int);
                assert(old(fields)@.take(n as int) =~= old(fields)@);
            }
            return res;
        }
        i = i + 1;
    }
    proof {
        assert(old(fields)@.take(n as int) =~= old(fields)@);
        assert(fields@.take(n as int) =~= fields@);
        lemma_fields_scopes_in_all(fields@, scopes@.len());
    }
    Ok(())
}

proof fn lemma_exprs_scopes_in_at(es: Seq<Expr>, n: nat, i: int)
    requires
        exprs_scopes_in(es, n),
        0 <= i < es.len(),
    ensures
        expr_scopes_in(es[i], n),
    decreases es.len(),
{
    if i < es.len() - 1 {
        lemma_exprs_scopes_in_at(es.drop_last(), n, i);
    }
}

proof fn lemma_fields_scopes_in_at(fs: Seq<(TokenValue<Vec<u8>>, Expr)>, n: nat, i: int)
    requires
        fields_scopes_in(fs, n),
        0 <= i < fs.len(),
    ensures
        expr_scopes_in(fs[i].1, n),
    decreases fs.len(),
{
    if i < fs.len() - 1 {
        lemma_fields_scopes_in_at(fs.drop_last(), n, i);
    }
}

/// A longer prefix has all its variables found only if a shorter one has.
proof fn lemma_exprs_found_prefix(es: Seq<Expr>, look: spec_fn(ExprVar) -> Option<VarRef>, i: int, j: int)
    requires
        0 <= i <= j <= es.len(),
    ensures
        exprs_found(es.take(j), look) ==> exprs_found(es.take(i), look),
    decreases j - i,
{
    if i < j {
        assert(es.take(j).drop_last() =~= es.take(j - 1));
        lemma_exprs_found_prefix(es, look, i, j - 1);
    }
}

proof fn lemma_fields_found_prefix(fs: Seq<(TokenValue<Vec<u8>>, Expr)>, look: spec_fn(ExprVar) -> Option<VarRef>, i: int, j: int)
    requires
        0 <= i <= j <= fs.len(),
    ensures
        fields_found(fs.take(j), look) ==> fields_found(fs.take(i), look),
    decreases j - i,
{
    if i < j {
        assert(fs.take(j).drop_last() =~= fs.take(j - 1));
        lemma_fields_found_prefix(fs, look, i, j - 1);
    }
}

/// Whether a variable's first value, if it has one, names only scopes that
/// exist.
pub open spec fn init_in(v: super::var::Variable, n: nat) -> bool {
    v.initial matches Some(e) ==> expr_scopes_in(e, n)
}

/// Whether every first value of a variable of the scopes names only scopes
/// that exist.
pub open spec fn inits_in(sc: Seq<Scope>) -> bool {
    forall|s: int, k: int|
        0 <= s < sc.len() && 0 <= k < sc[s].vars@.len() ==> init_in(#[trigger] sc[s].vars@[k], sc.len())
}

/// Naming only existing scopes stays true as scopes are added.
pub proof fn lemma_expr_scopes_in_mono(e: Expr, n: nat, m: nat)
    requires
        expr_scopes_in(e, n),
        n <= m,
    ensures
        expr_scopes_in(e, m),
    decreases e,
{
    match e {
        Expr::Var(_) => {},
        Expr::Literal(l) => match l.literal {
            Literal::Array(items) => lemma_exprs_scopes_in_mono(items@, n, m),
            Literal::Object(fields) => lemma_fields_scopes_in_mono(fields@, n, m),
            _ => {},
        },
        Expr::Prefix(p) => lemma_expr_scopes_in_mono(*p.subexpr, n, m),
        Expr::Binary(b) => {
            lemma_expr_scopes_in_mono(*b.left, n, m);
            lemma_expr_scopes_in_mono(*b.right, n, m);
        },
        Expr::PostfixList(p) => {
            lemma_expr_scopes_in_mono(*p.left, n, m);
            lemma_exprs_scopes_in_mono(p.right@, n, m);
        },
    }
}

pub proof fn lemma_exprs_scopes_in_mono(es: Seq<Expr>, n: nat, m: nat)
    requires
        exprs_scopes_in(es, n),
        n <= m,
    ensures
        exprs_scopes_in(es, m),
    decreases es,
{
    if es.len() > 0 {
        lemma_exprs_scopes_in_mono(es.drop_last(), n, m);
        lemma_expr_scopes_in_mono(es.last(), n, m);
    }
}

pub proof fn lemma_fields_scopes_in_mono(fs: Seq<(TokenValue<Vec<u8>>, Expr)>, n: nat, m: nat)
    requires
        fields_scopes_in(fs, n),
        n <= m,
    ensures
        fields_scopes_in(fs, m),
    decreases fs,
{
    if fs.len() > 0 {
        lemma_fields_scopes_in_mono(fs.drop_last(), n, m);
        lemma_expr_scopes_in_mono(fs.last().1, n, m);
    }
}

proof fn lemma_exprs_scopes_in_all(es: Seq<Expr>, n: nat)
    requires
        forall|j: int| 0 <= j < es.len() ==> expr_scopes_in(#[trigger] es[j], n),
    ensures
        exprs_scopes_in(es, n),
    decreases es.len(),
{
    if es.len() > 0 {
        assert forall|j: int| 0 <= j < es.drop_last().len() implies expr_scopes_in(#[trigger] es.drop_last()[j], n) by {
            assert(es.drop_last()[j] == es[j]);
        }
        lemma_exprs_scopes_in_all(es.drop_last(), n);
        assert(expr_scopes_in(es[es.len() - 1], n));
    }
}

proof fn lemma_fields_scopes_in_all(fs: Seq<(TokenValue<Vec<u8>>, Expr)>, n: nat)
    requires
        forall|j: int| 0 <= j < fs.len() ==> expr_scopes_in(#[trigger] fs[j].1, n),
    ensures
        fields_scopes_in(fs, n),
    decreases fs.len(),
{
    if fs.len() > 0 {
        assert forall|j: int| 0 <= j < fs.drop_last().len() implies expr_scopes_in(#[trigger] fs.drop_last()[j].1, n) by {
            assert(fs.drop_last()[j] == fs[j]);
        }
        lemma_fields_scopes_in_all(fs.drop_last(), n);
        assert(expr_scopes_in(fs[fs.len() - 1].1, n));
    }
}

/// A resolved expression names the same variables, through the same
/// filters, as the expression it was resolved from.
pub proof fn lemma_resolved_found(e0: Expr, e1: Expr, look: spec_fn(ExprVar) -> Option<VarRef>, sc: Seq<Scope>)
    requires
        expr_resolved(e0, e1, look),
    ensures
        expr_found(e1, lookup_in(sc)) == expr_found(e0, lookup_in(sc)),
    decreases e0,
{
    match (e0, e1) {
        (Expr::Var(v0), Expr::Var(v1)) => {
            assert(var_lookup(v0, sc) == var_lookup(v1, sc));
        },
        (Expr::Literal(l0), Expr::Literal(l1)) => match (l0.literal, l1.literal) {
            (Literal::Array(a0), Literal::Array(a1)) => lemma_resolved_found_list(a0@, a1@, look, sc),
            (Literal::Object(f0), Literal::Object(f1)) => lemma_resolved_found_fields(f0@, f1@, look, sc),
            _ => {},
        },
        (Expr::Prefix(p0), Expr::Prefix(p1)) => lemma_resolved_found(*p0.subexpr, *p1.subexpr, look, sc),
        (Expr::Binary(b0), Expr::Binary(b1)) => {
            lemma_resolved_found(*b0.left, *b1.left, look, sc);
            lemma_resolved_found(*b0.right, *b1.right, look, sc);
        },
        (Expr::PostfixList(p0), Expr::PostfixList(p1)) => {
            lemma_resolved_found(*p0.left, *p1.left, look, sc);
            lemma_resolved_found_list(p0.right@, p1.right@, look, sc);
        },
        _ => {},
    }
}

pub proof fn lemma_resolved_found_list(
    es0: Seq<Expr>,
    es1: Seq<Expr>,
    look: spec_fn(ExprVar) -> Option<VarRef>,
    sc: Seq<Scope>,
)
    requires
        exprs_resolved(es0, es1, look),
    ensures
        exprs_found(es1, lookup_in(sc)) == exprs_found(es0, lookup_in(sc)),
    decreases es0,
{
    if es0.len() > 0 {
        lemma_resolved_found_list(es0.drop_last(), es1.drop_last(), look, sc);
        lemma_resolved_found(es0.last(), es1.last(), look, sc);
    }
}

pub proof fn lemma_resolved_found_fields(
    fs0: Seq<(TokenValue<Vec<u8>>, Expr)>,
    fs1: Seq<(TokenValue<Vec<u8>>, Expr)>,
    look: spec_fn(ExprVar) -> Option<VarRef>,
    sc: Seq<Scope>,
)
    requires
        fields_resolved(fs0, fs1, look),
    ensures
        fields_found(fs1, lookup_in(sc)) == fields_found(fs0, lookup_in(sc)),
    decreases fs0,
{
    if fs0.len() > 0 {
        lemma_resolved_found_fields(fs0.drop_last(), fs1.drop_last(), look, sc);
        lemma_resolved_found(fs0.last().1, fs1.last().1, look, sc);
    }
}

/// Whether variable `v1` is `v0` with its first value, if any, resolved.
pub open spec fn init_resolved(v0: super::var::Variable, v1: super::var::Variable, look: spec_fn(ExprVar) -> Option<VarRef>) -> bool {
    &&& v1.name == v0.name
    &&& v1.ty == v0.ty
    &&& match (v0.initial, v1.initial) {
        (Some(e0), Some(e1)) => expr_resolved(e0, e1, look),
        (None, None) => true,
        _ => false,
    }
}

/// Whether scope `s1` is `s0` with the first values of its variables
/// resolved.
pub open spec fn scope_resolved(s0: Scope, s1: Scope, look: spec_fn(ExprVar) -> Option<VarRef>) -> bool {
    &&& s1.kind == s0.kind
    &&& s1.parent == s0.parent
    &&& s1.span == s0.span
    &&& s1.vars@.len() == s0.vars@.len()
    &&& forall|k: int| 0 <= k < s0.vars@.len() ==> init_resolved(s0.vars@[k], #[trigger] s1.vars@[k], look)
}

/// Resolving a resolved expression again with the same lookups records
/// the same.
pub proof fn lemma_resolved_trans(e0: Expr, e1: Expr, e2: Expr, sc: Seq<Scope>)
    requires
        expr_resolved(e0, e1, lookup_in(sc)),
        expr_resolved(e1, e2, lookup_in(sc)),
    ensures
        expr_resolved(e0, e2, lookup_in(sc)),
    decreases e0,
{
    let look = lookup_in(sc);
    match (e0, e1, e2) {
        (Expr::Var(v0), Expr::Var(v1), Expr::Var(v2)) => {
            assert(var_lookup(v1, sc) == var_lookup(v0, sc));
        },
        (Expr::Literal(l0), Expr::Literal(l1), Expr::Literal(l2)) => match (l0.literal, l1.literal, l2.literal) {
            (Literal::Array(a0), Literal::Array(a1), Literal::Array(a2)) => lemma_resolved_trans_list(a0@, a1@, a2@, sc),
            (Literal::Object(f0), Literal::Object(f1), Literal::Object(f2)) => lemma_resolved_trans_fields(f0@, f1@, f2@, sc),
            _ => {},
        },
        (Expr::Prefix(p0), Expr::Prefix(p1), Expr::Prefix(p2)) => lemma_resolved_trans(*p0.subexpr, *p1.subexpr, *p2.subexpr, sc),
        (Expr::Binary(b0), Expr::Binary(b1), Expr::Binary(b2)) => {
            lemma_resolved_trans(*b0.left, *b1.left, *b2.left, sc);
            lemma_resolved_trans(*b0.right, *b1.right, *b2.right, sc);
        },
        (Expr::PostfixList(p0), Expr::PostfixList(p1), Expr::PostfixList(p2)) => {
            lemma_resolved_trans(*p0.left, *p1.left, *p2.left, sc);
            lemma_resolved_trans_list(p0.right@, p1.right@, p2.right@, sc);
        },
        _ => {},
    }
}

pub proof fn lemma_resolved_trans_list(
    es0: Seq<Expr>,
    es1: Seq<Expr>,
    es2: Seq<Expr>,
    sc: Seq<Scope>,
)
    requires
        exprs_resolved(es0, es1, lookup_in(sc)),
        exprs_resolved(es1, es2, lookup_in(sc)),
    ensures
        exprs_resolved(es0, es2, lookup_in(sc)),
    decreases es0,
{
    if es0.len() > 0 {
        lemma_resolved_trans_list(es0.drop_last(), es1.drop_last(), es2.drop_last(), sc);
        lemma_resolved_trans(es0.last(), es1.last(), es2.last(), sc);
    }
}

pub proof fn lemma_resolved_trans_fields(
    fs0: Seq<(TokenValue<Vec<u8>>, Expr)>,
    fs1: Seq<(TokenValue<Vec<u8>>, Expr)>,
    fs2: Seq<(TokenValue<Vec<u8>>, Expr)>,
    sc: Seq<Scope>,
)
    requires
        fields_resolved(fs0, fs1, lookup_in(sc)),
        fields_resolved(fs1, fs2, lookup_in(sc)),
    ensures
        fields_resolved(fs0, fs2, lookup_in(sc)),
    decreases fs0,
{
    if fs0.len() > 0 {
        lemma_resolved_trans_fields(fs0.drop_last(), fs1.drop_last(), fs2.drop_last(), sc);
        lemma_resolved_trans(fs0.last().1, fs1.last().1, fs2.last().1, sc);
    }
}

/// Resolving a resolved scope again with the same lookups records the same.
pub proof fn lemma_scope_resolved_trans(a: Scope, b: Scope, c: Scope, sc: Seq<Scope>)
    requires
        scope_resolved(a, b, lookup_in(sc)),
        scope_resolved(b, c, lookup_in(sc)),
    ensures
        scope_resolved(a, c, lookup_in(sc)),
{
    assert forall|k: int| 0 <= k < a.vars@.len() implies init_resolved(a.vars@[k], #[trigger] c.vars@[k], lookup_in(sc)) by {
        assert(init_resolved(a.vars@[k], b.vars@[k], lookup_in(sc)));
        assert(init_resolved(b.vars@[k], c.vars@[k], lookup_in(sc)));
        if let (Some(e0), Some(e1), Some(e2)) = (a.vars@[k].initial, b.vars@[k].initial, c.vars@[k].initial) {
            lemma_resolved_trans(e0, e1, e2, sc);
        }
    }
}

} // verus!
