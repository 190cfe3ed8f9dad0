use std::sync::Arc;
use scifi::ast::expr::{Expr, Literal};
use scifi::ast::oper::{BinaryOperator, PostfixListOperator, PrefixOperator};
use scifi::ast::tree::{Ast, GLOBAL_SCOPE};
use scifi::ast::ty::{AutoGrouping, BaseCustomType, CustomType, Type};
use scifi::ast::AstErrorKind;
use scifi::compile::parser_rd::{parse_str, Parser, ProgramStep};
use scifi::compile::token::{Keyword, TokenKind};
use scifi::compile::ParseErrorKind;

fn file() -> Arc<String> {
    Arc::new(String::from("test.sf"))
}

fn expr_of(src: &[u8]) -> Expr {
    let ast = Ast::new();
    let mut p = Parser::new(file(), src);
    p.advance().unwrap();
    let e = p.parse_expression(GLOBAL_SCOPE, &ast).unwrap();
    assert!(matches!(p.current_token().kind, TokenKind::Eof));
    e
}

fn binary(e: &Expr) -> (BinaryOperator, &Expr, &Expr) {
    match e {
        Expr::Binary(b) => (*b.operator.value(), &b.left, &b.right),
        _ => panic!("not a binary expression: {:?}", e),
    }
}

fn int_of(e: &Expr) -> i64 {
    match e {
        Expr::Literal(l) => match &l.literal {
            Literal::Integer(v) => *v.value(),
            other => panic!("not an integer: {:?}", other),
        },
        _ => panic!("not a literal: {:?}", e),
    }
}

#[test]
fn empty_definitions() {
    let mut ast = Ast::new();
    let r = parse_str(file(), b"collectable gem; user group admins; remote event ping; object thing;", &mut ast);
    assert!(matches!(r, Ok(ProgramStep::Done)));
    assert_eq!(ast.find(b"gem"), Some(10));
    assert_eq!(ast.find(b"admins"), Some(11));
    assert_eq!(ast.find(b"ping"), Some(12));
    assert_eq!(ast.find(b"thing"), Some(13));
    match ast.type_at(12) {
        Type::Custom(c) => assert_eq!(c.base_type(), BaseCustomType::RemoteEvent),
        _ => panic!("not custom"),
    }
}

#[test]
fn second_definition_is_refused() {
    let mut ast = Ast::new();
    match parse_str(file(), b"user player; event player;", &mut ast) {
        Err(ParseErrorKind::Ast(AstErrorKind::DuplicateDefinition(n, span, what))) => {
            assert_eq!(n, b"player".to_vec());
            assert_eq!(what, "event");
            assert_eq!(span.start, 20);
        }
        other => panic!("{:?}", other),
    }
}

#[test]
fn empty_array_type_is_refused() {
    let mut ast = Ast::new();
    match parse_str(file(), b"array list;", &mut ast) {
        Err(ParseErrorKind::Ast(AstErrorKind::InvalidOperation(_))) => {}
        other => panic!("{:?}", other),
    }
}

#[test]
fn include_hands_back_its_path() {
    let mut ast = Ast::new();
    let src: &[u8] = b"include 'base.sf'; user player;";
    let mut p = Parser::new(file(), src);
    match p.parse_program(&mut ast) {
        Ok(ProgramStep::Include(path)) => assert_eq!(path, b"base.sf".to_vec()),
        other => panic!("{:?}", other),
    }
    assert!(matches!(p.parse_items(&mut ast), Ok(ProgramStep::Done)));
    assert_eq!(ast.find(b"player"), Some(10));
}

#[test]
fn base_type_errors() {
    let mut ast = Ast::new();
    match parse_str(file(), b"remote user x;", &mut ast) {
        Err(ParseErrorKind::Expected(what, found)) => {
            assert_eq!(what, b"event or function".to_vec());
            assert_eq!(found.value(), &b"user".to_vec());
        }
        other => panic!("{:?}", other),
    }
    match parse_str(file(), b"include x;", &mut ast) {
        Err(ParseErrorKind::Expected(what, _)) => assert_eq!(what, b"string".to_vec()),
        other => panic!("{:?}", other),
    }
    match parse_str(file(), b"gem;", &mut ast) {
        Err(ParseErrorKind::Expected(what, found)) => {
            assert_eq!(what, b"keyword".to_vec());
            assert_eq!(found.value(), &b"gem".to_vec());
        }
        other => panic!("{:?}", other),
    }
    match parse_str(file(), b"text gem;", &mut ast) {
        Err(ParseErrorKind::Expected(what, _)) => assert_eq!(what, b"base type keyword".to_vec()),
        other => panic!("{:?}", other),
    }
}

#[test]
fn a_definition_with_an_empty_body() {
    let mut ast = Ast::new();
    let before = ast.types_len();
    assert!(matches!(parse_str(file(), b"user player: end;", &mut ast), Ok(ProgramStep::Done)));
    assert_eq!(ast.types_len(), before + 1);
    assert_eq!(ast.type_at(before).name().value(), &b"player".to_vec());
    let mut ast = Ast::new();
    assert!(matches!(parse_str(file(), b"collectable gem: end;", &mut ast), Ok(ProgramStep::Done)));
    assert_eq!(ast.type_at(before).name().value(), &b"gem".to_vec());
}

#[test]
fn a_body_holds_properties() {
    let mut ast = Ast::new();
    let before = ast.types_len();
    let src = b"collectable gem:\n  property shine integer = 2 + 3;\nend;";
    match parse_str(file(), src, &mut ast) {
        Ok(ProgramStep::Done) => {}
        other => panic!("{:?}", other),
    }
    assert_eq!(ast.type_at(before).name().value(), &b"gem".to_vec());
}

#[test]
fn a_body_without_end_is_refused() {
    let mut ast = Ast::new();
    assert!(parse_str(file(), b"user player: ;", &mut ast).is_err());
}

#[test]
fn precedence_climbing() {
    let e = expr_of(b"1 + 2 * 3");
    let (op, l, r) = binary(&e);
    assert_eq!(op, BinaryOperator::Add);
    assert_eq!(int_of(l), 1);
    let (op2, l2, r2) = binary(r);
    assert_eq!(op2, BinaryOperator::Mul);
    assert_eq!((int_of(l2), int_of(r2)), (2, 3));

    let e = expr_of(b"1 - 2 - 3");
    let (op, l, r) = binary(&e);
    assert_eq!(op, BinaryOperator::Sub);
    assert_eq!(int_of(r), 3);
    let (_, l2, r2) = binary(l);
    assert_eq!((int_of(l2), int_of(r2)), (1, 2));

    let e = expr_of(b"2 ^ 3 ^ 4");
    let (op, l, r) = binary(&e);
    assert_eq!(op, BinaryOperator::Pow);
    assert_eq!(int_of(l), 2);
    let (_, l2, r2) = binary(r);
    assert_eq!((int_of(l2), int_of(r2)), (3, 4));
}

#[test]
fn prefix_and_postfix() {
    let e = expr_of(b"-y");
    match &e {
        Expr::Prefix(p) => {
            assert_eq!(*p.operator.value(), PrefixOperator::Neg);
            assert!(matches!(*p.subexpr, Expr::Var(_)));
            assert_eq!(p.span.start, 1);
            assert_eq!(p.span.end, 3);
        }
        _ => panic!("{:?}", e),
    }
    let e = expr_of(b"(1 or 2) and 3");
    let (op, l, _) = binary(&e);
    assert_eq!(op, BinaryOperator::And);
    assert!(matches!(l, Expr::Prefix(_)));
    let e = expr_of(b"f(1, 2)[i]");
    match &e {
        Expr::PostfixList(p) => {
            assert_eq!(*p.operator.value(), PostfixListOperator::Idx);
            assert_eq!(p.right.len(), 1);
            match &*p.left {
                Expr::PostfixList(call) => {
                    assert_eq!(*call.operator.value(), PostfixListOperator::Call);
                    assert_eq!(call.right.len(), 2);
                }
                other => panic!("{:?}", other),
            }
        }
        _ => panic!("{:?}", e),
    }
}

#[test]
fn literals() {
    match expr_of(b"'gold'") {
        Expr::Literal(l) => {
            assert_eq!(l.ty, 2);
            assert!(matches!(l.literal, Literal::Text(ref v) if v.value() == &b"gold".to_vec()));
        }
        e => panic!("{:?}", e),
    }
    match expr_of(b"localized 'hi'") {
        Expr::Literal(l) => {
            assert_eq!(l.ty, 3);
            match l.literal {
                Literal::LocalizedText(v) => {
                    assert_eq!(v.value(), &b"hi".to_vec());
                    assert_eq!(v.span().start, 1);
                    assert_eq!(v.span().end, 15);
                }
                other => panic!("{:?}", other),
            }
        }
        e => panic!("{:?}", e),
    }
    match expr_of(b"12.5%") {
        Expr::Literal(l) => match l.literal {
            Literal::Decimal(v) => {
                assert_eq!(v.value().digits, b"12.5".to_vec());
                assert!(v.value().percent);
                assert_eq!(l.ty, 5);
            }
            other => panic!("{:?}", other),
        },
        e => panic!("{:?}", e),
    }
    match expr_of(b"yes") {
        Expr::Literal(l) => assert!(matches!(l.literal, Literal::Option(ref v) if *v.value())),
        e => panic!("{:?}", e),
    }
    match expr_of(b"amount") {
        Expr::Var(v) => assert_eq!(v.name.value(), &b"amount".to_vec()),
        e => panic!("{:?}", e),
    }
}

#[test]
fn unexpected_token_in_an_expression() {
    let ast = Ast::new();
    let mut p = Parser::new(file(), b")");
    p.advance().unwrap();
    match p.parse_expression(GLOBAL_SCOPE, &ast) {
        Err(ParseErrorKind::Unexpected(found)) => assert_eq!(found.value(), &b")".to_vec()),
        other => panic!("{:?}", other),
    }
}

#[test]
fn types() {
    let mut ast = Ast::new();
    let mut p = Parser::new(file(), b"array x 3 of localized text");
    p.advance().unwrap();
    let t = p.parse_type(&mut ast).unwrap();
    assert_eq!(t.name.value(), &b"array x 3 of text".to_vec());
    assert_eq!(t.item, Some(10));
    let mut p = Parser::new(file(), b"gem");
    p.advance().unwrap();
    let t = p.parse_type(&mut ast).unwrap();
    assert_eq!(t.item, None);
    let mut p = Parser::new(file(), b"array x 4294967296");
    p.advance().unwrap();
    match p.parse_type(&mut ast) {
        Err(ParseErrorKind::IntegerOutOfRange(v, _)) => assert_eq!(*v.value(), 4294967296),
        other => panic!("{:?}", other),
    }
    let mut p = Parser::new(file(), b"yes");
    p.advance().unwrap();
    match p.parse_type(&mut ast) {
        Err(ParseErrorKind::Expected(what, _)) => assert_eq!(what, b"type name".to_vec()),
        other => panic!("{:?}", other),
    }
}

#[test]
fn auto_grouping_and_end() {
    let mut p = Parser::new(file(), b"has amount; end;");
    p.advance().unwrap();
    assert_eq!(p.parse_auto_grouping().unwrap(), AutoGrouping::ByAmount);
    assert_eq!(p.parse_auto_grouping().unwrap(), AutoGrouping::Inherit);
    assert!(p.parse_end().is_ok());
    assert!(matches!(p.current_token().kind, TokenKind::Eof));
}

#[test]
fn base_custom_types() {
    let mut p = Parser::new(file(), b"collectable group user remote function array");
    p.advance().unwrap();
    assert_eq!(p.parse_base_custom_type().unwrap(), BaseCustomType::CollectableGroup);
    assert_eq!(p.parse_base_custom_type().unwrap(), BaseCustomType::User);
    assert_eq!(p.parse_base_custom_type().unwrap(), BaseCustomType::RemoteFunction);
    assert_eq!(p.parse_base_custom_type().unwrap(), BaseCustomType::Array);
    assert!(matches!(p.current_token().kind, TokenKind::Eof));
    let _ = Keyword::Group;
}

#[test]
fn has_collectables_define_early_types() {
    let mut ast = Ast::new();
    let mut p = Parser::new(file(), b"collectable group [ruby, pearl]");
    p.advance().unwrap();
    p.parse_has_collectable_or_group(true, &mut ast).unwrap();
    assert_eq!(ast.find(b"ruby"), Some(10));
    assert_eq!(ast.find(b"pearl"), Some(11));
    match ast.type_at(10) {
        Type::Custom(CustomType::EarlyRef(e)) => assert_eq!(e.real_ty(), BaseCustomType::CollectableGroup),
        _ => panic!("not an early reference"),
    }
    let mut p = Parser::new(file(), b"collectable group x");
    p.advance().unwrap();
    assert!(matches!(p.parse_has_collectable_or_group(false, &mut ast), Err(ParseErrorKind::Unexpected(_))));
}

#[test]
fn definitions_without_bodies_are_added_in_order() {
    let mut ast = Ast::new();
    let before = ast.types_len();
    let src = b"user player;\nevent joined;\ncollectable gem;\n";
    assert!(matches!(parse_str(file(), src, &mut ast), Ok(ProgramStep::Done)));
    assert_eq!(ast.types_len(), before + 3);
    assert_eq!(ast.type_at(before).name().value(), &b"player".to_vec());
    assert_eq!(ast.type_at(before + 1).name().value(), &b"joined".to_vec());
    assert_eq!(ast.type_at(before + 2).name().value(), &b"gem".to_vec());
    let mut ast = Ast::new();
    match parse_str(file(), b"user player;\nevent player;\n", &mut ast) {
        Err(ParseErrorKind::Ast(AstErrorKind::DuplicateDefinition(name, _, _))) => assert_eq!(name, b"player".to_vec()),
        other => panic!("{:?}", other),
    }
}

#[test]
fn a_listed_name_that_is_not_new_is_refused() {
    let mut ast = Ast::new();
    let before = ast.types_len();
    let mut p = Parser::new(file(), b"collectable [ruby, pearl, ruby]");
    p.advance().unwrap();
    match p.parse_has_collectable_or_group(false, &mut ast) {
        Err(ParseErrorKind::Ast(AstErrorKind::DuplicateDefinition(name, _, _))) => assert_eq!(name, b"ruby".to_vec()),
        other => panic!("{:?}", other),
    }
    assert_eq!(ast.types_len(), before + 2);
    let mut p = Parser::new(file(), b"collectable [opal, jade");
    p.advance().unwrap();
    assert!(p.parse_has_collectable_or_group(false, &mut ast).is_err());
    assert_eq!(ast.find(b"jade"), Some(before + 3));
}

#[test]
fn binary_operands_are_both_kept() {
    let e = expr_of(b"1 + 2");
    let (op, l, r) = binary(&e);
    assert_eq!(op, BinaryOperator::Add);
    assert_eq!((int_of(l), int_of(r)), (1, 2));
    let ast = Ast::new();
    let mut p = Parser::new(file(), b"1 +");
    p.advance().unwrap();
    assert!(p.parse_expression(GLOBAL_SCOPE, &ast).is_err());
    let mut p = Parser::new(file(), b"a, b + 1, c)");
    p.advance().unwrap();
    let list = p.parse_expr_list(GLOBAL_SCOPE, &ast).unwrap();
    assert_eq!(list.len(), 3);
    assert!(matches!(p.current_token().kind, TokenKind::RParen));
}

#[test]
fn array_types_of_every_form() {
    let mut ast = Ast::new();
    let mut p = Parser::new(file(), b"array ;");
    p.advance().unwrap();
    let t = p.parse_type(&mut ast).unwrap();
    assert_eq!(t.name.value(), &b"array".to_vec());
    assert!(matches!(p.current_token().kind, TokenKind::Semicolon));
    let mut p = Parser::new(file(), b"array of gem");
    p.advance().unwrap();
    let t = p.parse_type(&mut ast).unwrap();
    assert_eq!(t.name.value(), &b"array of gem".to_vec());
    let mut p = Parser::new(file(), b"array x 5000000000");
    p.advance().unwrap();
    match p.parse_type(&mut ast) {
        Err(ParseErrorKind::IntegerOutOfRange(v, _)) => assert_eq!(*v.value(), 5000000000),
        other => panic!("{:?}", other),
    }
}

#[test]
fn a_body_is_read_with_its_members() {
    let mut ast = Ast::new();
    let before = ast.types_len();
    let src = b"collectable group gems:\n  has amount;\n  property shine integer = 2;\n  has collectable [ruby, pearl];\n  has redemptions;\nend;";
    let mut p = Parser::new(file(), src);
    assert!(matches!(p.parse_program(&mut ast), Ok(ProgramStep::Done)));
    assert_eq!(ast.types_len(), before + 3);
    match ast.type_at(before) {
        Type::Custom(CustomType::CollectableGroup(g)) => {
            assert_eq!(g.name.value(), &b"gems".to_vec());
            assert_eq!(g.auto_grouping, AutoGrouping::ByAmount);
            assert!(g.redemptions.is_some());
            assert!(g.upgrades.is_none());
            let scope = ast.scopes().get(g.scope);
            assert_eq!(scope.vars.len(), 1);
            assert_eq!(scope.vars[0].name().value(), &b"shine".to_vec());
        }
        _ => panic!("not a group"),
    }
    assert_eq!(ast.find(b"ruby"), Some(before + 1));
    assert_eq!(ast.find(b"pearl"), Some(before + 2));
}

#[test]
fn a_block_is_taken_once() {
    let mut ast = Ast::new();
    let src = b"collectable gem:\n  has upgrades;\n  has upgrades;\nend;";
    let mut p = Parser::new(file(), src);
    assert!(p.parse_program(&mut ast).is_err());
}
