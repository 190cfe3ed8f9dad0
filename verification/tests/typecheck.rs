use std::sync::Arc;
use scifi::ast::expr::{Expr, ExprVar};
use scifi::ast::tree::{Ast, GLOBAL_SCOPE};
use scifi::ast::ty::{AutoGrouping, BaseCustomType, Collectable, CollectableGroup, CustomType, EarlyRefType, Object, Type, User};
use scifi::ast::var::{ScopeFilter, ScopeKind, Variable, VarRef, SCOPE_ALL};
use scifi::ast::{AstErrorKind, ItemRef, ItemRefMut};
use scifi::compile::parser_rd::{parse_str, ProgramStep};
use scifi::compile::token::{TokenSpan, TokenValue};
use scifi::compile::ParseErrorKind;

fn span() -> TokenSpan {
    TokenSpan::new(Arc::new(String::from("check.sf")))
}

fn name(s: &str) -> TokenValue<Vec<u8>> {
    TokenValue::new(s.as_bytes().to_vec(), span())
}

fn var_with(s: &str, init: Option<Expr>) -> Variable {
    let mut v = Variable::new(name(s), ItemRef::new(name("integer")));
    v.initial = init;
    v
}

fn use_of(s: &str, scope: usize) -> Expr {
    Expr::Var(ExprVar::new(name(s), ScopeFilter::new(scope, ScopeKind::new(SCOPE_ALL))))
}

fn group_at(ast: &Ast, i: usize) -> &CollectableGroup {
    match ast.type_at(i) {
        Type::Custom(CustomType::CollectableGroup(g)) => g,
        other => panic!("not a group: {:?}", other),
    }
}

fn super_of(ast: &Ast, i: usize) -> Option<usize> {
    match ast.type_at(i) {
        Type::Custom(CustomType::Collectable(c)) => c.parent,
        Type::Custom(CustomType::CollectableGroup(g)) => g.parent,
        Type::Custom(CustomType::Object(o)) => o.super_type,
        _ => None,
    }
}

/// A group that lists the given collectables and sub groups by name.
fn add_group(ast: &mut Ast, n: &str, items: &[&str], subs: &[&str]) -> usize {
    let group = CollectableGroup {
        name: name(n),
        self_ref: 0,
        auto_grouping: AutoGrouping::Inherit,
        parent: None,
        scope: GLOBAL_SCOPE,
        collectables: items.iter().map(|s| ItemRefMut::new(name(s))).collect(),
        sub_groups: subs.iter().map(|s| ItemRefMut::new(name(s))).collect(),
        upgrades: None,
        redemptions: None,
    };
    ast.insert_type(CustomType::CollectableGroup(group)).unwrap()
}

#[test]
fn a_new_program_resolves() {
    let mut ast = Ast::new();
    assert_eq!(ast.typecheck(), Ok(()));
    assert_eq!(ast.typecheck(), Ok(()));
}

#[test]
fn global_values_name_known_variables() {
    let mut ast = Ast::new();
    ast.insert_variable(GLOBAL_SCOPE, var_with("a", None)).unwrap();
    ast.insert_variable(GLOBAL_SCOPE, var_with("b", Some(use_of("a", GLOBAL_SCOPE)))).unwrap();
    assert_eq!(ast.typecheck(), Ok(()));
    let b = &ast.scopes().get(GLOBAL_SCOPE).vars[1];
    match &b.initial {
        Some(Expr::Var(v)) => assert_eq!(v.var, Some(VarRef { scope: GLOBAL_SCOPE, index: 0 })),
        other => panic!("{:?}", other),
    }
}

#[test]
fn a_global_value_naming_nothing_is_refused() {
    let mut ast = Ast::new();
    ast.insert_variable(GLOBAL_SCOPE, var_with("b", Some(use_of("missing", GLOBAL_SCOPE)))).unwrap();
    match ast.typecheck() {
        Err(AstErrorKind::NotDefined(n, _, what)) => {
            assert_eq!(n, b"missing".to_vec());
            assert_eq!(what, "variable");
        }
        other => panic!("{:?}", other),
    }
}

#[test]
fn the_scope_of_a_collectable_is_resolved() {
    let mut ast = Ast::new();
    let gem = Collectable::new(name("gem"), &mut ast).unwrap();
    let scope = match ast.type_at(gem) {
        Type::Custom(CustomType::Collectable(c)) => c.scope,
        _ => panic!("not a collectable"),
    };
    ast.insert_variable(scope, var_with("shine", Some(use_of("glow", scope)))).unwrap();
    match ast.typecheck() {
        Err(AstErrorKind::NotDefined(n, _, "variable")) => assert_eq!(n, b"glow".to_vec()),
        other => panic!("{:?}", other),
    }
}

#[test]
fn the_scope_of_an_object_is_resolved() {
    let mut ast = Ast::new();
    let thing = Object::new(name("thing"), &mut ast).unwrap();
    let scope = match ast.type_at(thing) {
        Type::Custom(CustomType::Object(o)) => o.scope,
        _ => panic!("not an object"),
    };
    ast.insert_variable(scope, var_with("size", None)).unwrap();
    ast.insert_variable(scope, var_with("area", Some(use_of("size", scope)))).unwrap();
    assert_eq!(ast.typecheck(), Ok(()));
}

#[test]
fn a_type_never_defined_is_refused() {
    let mut ast = Ast::new();
    let early = EarlyRefType::new(name("later"), BaseCustomType::Collectable, &mut ast);
    ast.insert_type(CustomType::EarlyRef(early)).unwrap();
    match ast.typecheck() {
        Err(AstErrorKind::NotDefined(n, s, what)) => {
            assert_eq!(n, b"later".to_vec());
            assert_eq!(s, span());
            assert_eq!(what, "collectable");
        }
        other => panic!("{:?}", other),
    }
}

#[test]
fn a_group_becomes_the_super_type_of_what_it_lists() {
    let mut ast = Ast::new();
    let gem = Collectable::new(name("gem"), &mut ast).unwrap();
    let coin = Collectable::new(name("coin"), &mut ast).unwrap();
    let shiny = add_group(&mut ast, "shiny", &["coin"], &[]);
    let treasure = add_group(&mut ast, "treasure", &["gem"], &["shiny"]);
    assert_eq!(ast.typecheck(), Ok(()));
    assert_eq!(super_of(&ast, gem), Some(treasure));
    assert_eq!(super_of(&ast, coin), Some(shiny));
    assert_eq!(super_of(&ast, shiny), Some(treasure));
    assert_eq!(super_of(&ast, treasure), None);
    assert_eq!(group_at(&ast, treasure).collectables[0].item, Some(gem));
    assert_eq!(group_at(&ast, treasure).sub_groups[0].item, Some(shiny));
    assert_eq!(group_at(&ast, shiny).collectables[0].item, Some(coin));
    // A program that resolved resolves again, unchanged.
    assert_eq!(ast.typecheck(), Ok(()));
    assert_eq!(super_of(&ast, gem), Some(treasure));
}

#[test]
fn a_group_listing_an_unknown_item_is_refused() {
    let mut ast = Ast::new();
    add_group(&mut ast, "treasure", &["ghost"], &[]);
    match ast.typecheck() {
        Err(AstErrorKind::NotDefined(n, _, what)) => {
            assert_eq!(n, b"ghost".to_vec());
            assert_eq!(what, "item");
        }
        other => panic!("{:?}", other),
    }
}

#[test]
fn a_group_listing_a_type_of_another_kind_is_refused() {
    let mut ast = Ast::new();
    User::new(name("player"), &mut ast).unwrap();
    Collectable::new(name("gem"), &mut ast).unwrap();
    add_group(&mut ast, "treasure", &["player"], &[]);
    match ast.typecheck() {
        Err(AstErrorKind::NotDefined(n, _, "item")) => assert_eq!(n, b"player".to_vec()),
        other => panic!("{:?}", other),
    }
    let mut ast = Ast::new();
    Collectable::new(name("gem"), &mut ast).unwrap();
    add_group(&mut ast, "treasure", &[], &["gem"]);
    match ast.typecheck() {
        Err(AstErrorKind::NotDefined(n, _, "item")) => assert_eq!(n, b"gem".to_vec()),
        other => panic!("{:?}", other),
    }
}

#[test]
fn two_groups_cannot_share_an_item() {
    let mut ast = Ast::new();
    Collectable::new(name("gem"), &mut ast).unwrap();
    add_group(&mut ast, "treasure", &["gem"], &[]);
    add_group(&mut ast, "loot", &["gem"], &[]);
    match ast.typecheck() {
        Err(AstErrorKind::ConflictingSuperType(own, theirs, wanted)) => {
            assert_eq!(own, b"gem".to_vec());
            assert_eq!(theirs, b"treasure".to_vec());
            assert_eq!(wanted.value(), &b"loot".to_vec());
        }
        other => panic!("{:?}", other),
    }
}

#[test]
fn one_group_may_list_an_item_twice() {
    let mut ast = Ast::new();
    let gem = Collectable::new(name("gem"), &mut ast).unwrap();
    let mut group = CollectableGroup {
        name: name("treasure"),
        self_ref: 0,
        auto_grouping: AutoGrouping::Inherit,
        parent: None,
        scope: GLOBAL_SCOPE,
        collectables: vec![ItemRefMut::new(name("gem"))],
        sub_groups: vec![],
        upgrades: None,
        redemptions: None,
    };
    group.collectables.push(ItemRefMut::with_item(name("gem"), gem));
    let treasure = ast.insert_type(CustomType::CollectableGroup(group)).unwrap();
    assert_eq!(ast.typecheck(), Ok(()));
    assert_eq!(super_of(&ast, gem), Some(treasure));
}

#[test]
fn reading_a_whole_program_resolves_it() {
    let mut ast = Ast::new();
    match parse_str(Arc::new(String::from("check.sf")), b"collectable gem; collectable group treasure;", &mut ast) {
        Ok(ProgramStep::Done) => {}
        other => panic!("{:?}", other),
    }
    let mut ast = Ast::new();
    let early = EarlyRefType::new(name("later"), BaseCustomType::Object, &mut ast);
    ast.insert_type(CustomType::EarlyRef(early)).unwrap();
    match parse_str(Arc::new(String::from("check.sf")), b"collectable gem;", &mut ast) {
        Err(ParseErrorKind::Ast(AstErrorKind::NotDefined(n, _, "object"))) => assert_eq!(n, b"later".to_vec()),
        other => panic!("{:?}", other),
    }
}

#[test]
fn a_collectable_finds_its_properties() {
    let mut ast = Ast::new();
    let gem = Collectable::new(name("gem"), &mut ast).unwrap();
    let player = User::new(name("player"), &mut ast).unwrap();
    let scope = match ast.type_at(gem) {
        Type::Custom(CustomType::Collectable(c)) => c.scope,
        _ => panic!("not a collectable"),
    };
    ast.insert_variable(scope, var_with("shine", None)).unwrap();
    assert_eq!(ast.property(gem, b"shine"), Some(VarRef { scope, index: 0 }));
    assert_eq!(ast.property(gem, b"dull"), None);
    assert_eq!(ast.property(player, b"shine"), None);
    assert!(!ast.is_sub_type_of(gem, player));
}

#[test]
fn an_early_reference_to_a_parent_of_another_kind_is_refused() {
    let mut ast = Ast::new();
    let player = User::new(name("player"), &mut ast).unwrap();
    let shiny = add_group(&mut ast, "shiny", &[], &[]);
    let mut early = EarlyRefType::new(name("gem"), BaseCustomType::Collectable, &mut ast);
    assert_eq!(early.parent(&ast, BaseCustomType::CollectableGroup), Ok(None));
    early.parent = Some(shiny);
    assert_eq!(early.parent(&ast, BaseCustomType::CollectableGroup), Ok(Some(shiny)));
    early.parent = Some(player);
    match early.parent(&ast, BaseCustomType::CollectableGroup) {
        Err(AstErrorKind::TypeResolution(what, n)) => {
            assert_eq!(what, "collectable group");
            assert_eq!(n.value(), &b"player".to_vec());
        }
        other => panic!("{:?}", other),
    }
}

#[test]
fn syntax_errors_name_their_place() {
    let mut p = scifi::compile::parser_rd::Parser::new(Arc::new(String::from("check.sf")), b"gem");
    p.advance().unwrap();
    match p.e_syntax("custom array types are defined inline") {
        ParseErrorKind::Syntax(msg, place) => {
            assert_eq!(msg, "custom array types are defined inline");
            assert_eq!(place.start, 1);
        }
        other => panic!("{:?}", other),
    }
}
