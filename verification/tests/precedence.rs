use std::sync::Arc;
use scifi::ast::expr::{Expr, Literal};
use scifi::ast::tree::{Ast, GLOBAL_SCOPE};
use scifi::compile::parser_rd::Parser;

fn show(e: &Expr) -> String {
    match e {
        Expr::Var(v) => String::from_utf8(v.name.value().clone()).unwrap(),
        Expr::Literal(l) => match &l.literal {
            Literal::Integer(i) => format!("{}", i.value()),
            other => format!("{:?}", other),
        },
        Expr::Prefix(p) => {
            let op = *p.operator.value();
            format!("[{}{}{}]", op.str_before(), show(&p.subexpr), op.str_after().unwrap_or(""))
        }
        Expr::Binary(b) => format!("({} {} {})", show(&b.left), b.operator.value().as_str(), show(&b.right)),
        Expr::PostfixList(p) => {
            let args: Vec<String> = p.right.iter().map(show).collect();
            format!(
                "{{{}{}{}{}}}",
                show(&p.left),
                p.operator.value().str_before(),
                args.join(", "),
                p.operator.value().str_after()
            )
        }
    }
}

fn parsed(src: &str) -> String {
    let ast = Ast::new();
    let mut p = Parser::new(Arc::new(String::from("expr.sf")), src.as_bytes());
    p.advance().unwrap();
    show(&p.parse_expression(GLOBAL_SCOPE, &ast).unwrap())
}

#[test]
fn tighter_operators_lie_deeper() {
    assert_eq!(parsed("a + b * c"), "(a + (b * c))");
    assert_eq!(parsed("a * b + c"), "((a * b) + c)");
    assert_eq!(parsed("a or b and c = d"), "(a or (b and (c = d)))");
}

#[test]
fn operators_of_one_level_group_to_the_left() {
    assert_eq!(parsed("a - b - c"), "((a - b) - c)");
    assert_eq!(parsed("a / b * c"), "((a / b) * c)");
}

#[test]
fn powers_group_to_the_right() {
    assert_eq!(parsed("a ^ b ^ c"), "(a ^ (b ^ c))");
}

#[test]
fn prefixes_calls_and_members() {
    assert_eq!(parsed("-a + b"), "([-a] + b)");
    assert_eq!(parsed("-a.b"), "[-(a . b)]");
    assert_eq!(parsed("(a + b) * c"), "([((a + b))] * c)");
    assert_eq!(parsed("f(a, b + 1) * 2"), "({f(a, (b + 1))} * 2)");
    assert_eq!(parsed("a.b(c)"), "{(a . b)(c)}");
    assert_eq!(parsed("!a[1] and b"), "([!{a[1]}] and b)");
}
