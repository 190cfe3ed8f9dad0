use std::sync::Arc;
use scifi::ast::tree::{decimal_bytes, Ast, EMPTY_ARRAY_REASON, GLOBAL_SCOPE};
use scifi::ast::ty::{ArrayName, AutoGrouping, BaseCustomType, Collectable, CollectableGroup, CustomType, Function, Object, PrimitiveType, Type, User};
use scifi::ast::var::{Scope, ScopeKind, Scopes, Variable, VarRef, SCOPE_FN_LOCAL, SCOPE_GLOBAL, SCOPE_RECURSIVE, SCOPE_TYPE, SET_PARENT_REASON};
use scifi::ast::{AstErrorKind, ItemRef};
use scifi::compile::token::{TokenSpan, TokenValue};

fn span() -> TokenSpan {
    TokenSpan::new(Arc::new(String::from("test.sf")))
}

fn name(s: &str) -> TokenValue<Vec<u8>> {
    TokenValue::new(s.as_bytes().to_vec(), span())
}

fn var(s: &str) -> Variable {
    Variable::new(name(s), ItemRef::new(name("integer")))
}

#[test]
fn new_program_knows_the_primitives() {
    let ast = Ast::new();
    assert_eq!(ast.types_len(), 10);
    for (i, t) in PrimitiveType::iter().into_iter().enumerate() {
        assert_eq!(ast.find(t.as_str().as_bytes()), Some(i));
        assert_eq!(ast.type_at(i).as_primitive(), Some(t));
    }
    assert_eq!(ast.find(b"localized text"), Some(3));
    assert_eq!(ast.find(b"gem"), None);
    assert_eq!(ast.primitive().integer(), 4);
    assert_eq!(ast.scopes().len(), 11);
    assert_eq!(ast.scopes().kind(GLOBAL_SCOPE).bits(), SCOPE_GLOBAL);
    assert_eq!(ast.scopes().parent(1), Some(GLOBAL_SCOPE));
    assert_eq!(&**ast.internal_path(), "(internal)");
}

#[test]
fn types_are_defined_once() {
    let mut ast = Ast::new();
    let gem = Collectable::new(name("gem"), &mut ast).unwrap();
    assert_eq!(gem, 10);
    assert_eq!(ast.find(b"gem"), Some(10));
    assert_eq!(ast.find_custom(b"gem"), Some(10));
    assert_eq!(ast.find_custom(b"text"), None);
    match ast.type_at(gem) {
        Type::Custom(CustomType::Collectable(c)) => {
            assert_eq!(c.auto_grouping(), AutoGrouping::Inherit);
            assert_eq!(c.scope, 11);
        }
        _ => panic!("not a collectable"),
    }
    assert_eq!(ast.scopes().kind(11).bits(), SCOPE_TYPE | SCOPE_RECURSIVE);
    match User::new(name("gem"), &mut ast) {
        Err(AstErrorKind::DuplicateDefinition(n, _, what)) => {
            assert_eq!(n, b"gem".to_vec());
            assert_eq!(what, "user");
        }
        other => panic!("{:?}", other),
    }
    assert_eq!(ast.types_len(), 11);
    assert_eq!(ast.scopes().len(), 12);
    match Object::new(name("integer"), &mut ast) {
        Err(AstErrorKind::DuplicateDefinition(_, _, what)) => assert_eq!(what, "object"),
        other => panic!("{:?}", other),
    }
}

#[test]
fn a_function_has_a_scope_for_its_locals() {
    let mut ast = Ast::new();
    let f = Function::new(name("award"), &mut ast).unwrap();
    match ast.type_at(f) {
        Type::Custom(CustomType::Function(func)) => {
            assert_eq!(func.param_scope, 11);
            assert_eq!(func.local_scope, 12);
            assert_eq!(ast.scopes().parent(12), Some(11));
            assert_eq!(ast.scopes().kind(12).bits(), SCOPE_FN_LOCAL);
            assert_eq!(ast.scopes().level(12), 2);
        }
        _ => panic!("not a function"),
    }
}

#[test]
fn groups_know_their_own_index() {
    let mut ast = Ast::new();
    let g = CollectableGroup::new(name("gems"), &mut ast).unwrap();
    match ast.type_at(g) {
        Type::Custom(CustomType::CollectableGroup(group)) => assert_eq!(group.self_ref, g),
        _ => panic!("not a group"),
    }
    ast.set_auto_grouping(g, AutoGrouping::ByAmount);
    match ast.type_at(g) {
        Type::Custom(CustomType::CollectableGroup(group)) => assert_eq!(group.auto_grouping(), AutoGrouping::ByAmount),
        _ => panic!("not a group"),
    }
}

#[test]
fn empty_types_by_base() {
    let mut ast = Ast::new();
    assert!(BaseCustomType::Event.insert_empty_type(&mut ast, name("joined")).is_ok());
    assert_eq!(ast.find(b"joined"), Some(10));
    assert_eq!(
        BaseCustomType::Array.insert_empty_type(&mut ast, name("list")),
        Err(AstErrorKind::InvalidOperation(EMPTY_ARRAY_REASON))
    );
    assert_eq!(ast.types_len(), 11);
}

#[test]
fn array_names() {
    assert_eq!(ArrayName::new(None, None).to_text(), b"array".to_vec());
    assert_eq!(ArrayName::new(Some(3), None).to_text(), b"array x 3".to_vec());
    assert_eq!(ArrayName::new(None, Some(name("gem"))).to_text(), b"array of gem".to_vec());
    assert_eq!(ArrayName::new(Some(40), Some(name("text"))).to_text(), b"array x 40 of text".to_vec());
    assert_eq!(decimal_bytes(0), b"0".to_vec());
    assert_eq!(decimal_bytes(4294967295), b"4294967295".to_vec());
}

#[test]
fn arrays_are_made_once() {
    let mut ast = Ast::new();
    assert_eq!(ast.get_array(ArrayName::new(None, None)), 9);
    let a = ast.get_array(ArrayName::new(Some(3), Some(name("text"))));
    assert_eq!(a, 10);
    assert_eq!(ast.type_at(a).name().value(), &b"array x 3 of text".to_vec());
    let b = ast.get_array(ArrayName::new(Some(3), Some(name("text"))));
    assert_eq!(b, a);
    assert_eq!(ast.types_len(), 11);
    let c = ast.get_array(ArrayName::new(Some(4), None));
    assert_eq!(c, 11);
}

#[test]
fn super_types() {
    let mut ast = Ast::new();
    let g1 = CollectableGroup::new(name("gems"), &mut ast).unwrap();
    let g2 = CollectableGroup::new(name("stones"), &mut ast).unwrap();
    let c = Collectable::new(name("ruby"), &mut ast).unwrap();
    assert!(ast.set_super_type(c, g1).is_ok());
    assert!(ast.set_super_type(c, g1).is_ok());
    match ast.set_super_type(c, g2) {
        Err(AstErrorKind::ConflictingSuperType(own, theirs, wanted)) => {
            assert_eq!(own, b"ruby".to_vec());
            assert_eq!(theirs, b"gems".to_vec());
            assert_eq!(wanted.value(), &b"stones".to_vec());
        }
        other => panic!("{:?}", other),
    }
}

#[test]
fn scopes_refuse_a_name_defined_around_them() {
    let mut scopes = Scopes::new();
    let root = scopes.push(Scope::new(ScopeKind::new(SCOPE_GLOBAL), span()));
    let inner = scopes.push(Scope::child(root, ScopeKind::new(SCOPE_TYPE | SCOPE_RECURSIVE), span()));
    assert_eq!(scopes.insert(root, var("gold")), Ok(VarRef { scope: root, index: 0 }));
    assert_eq!(scopes.insert(inner, var("silver")), Ok(VarRef { scope: inner, index: 0 }));
    match scopes.insert(inner, var("gold")) {
        Err(AstErrorKind::DuplicateDefinition(n, _, what)) => {
            assert_eq!(n, b"gold".to_vec());
            assert_eq!(what, "variable");
        }
        other => panic!("{:?}", other),
    }
    assert!(scopes.insert(inner, var("silver")).is_err());
    assert!(scopes.has(inner, b"gold"));
    assert!(!scopes.has(root, b"silver"));
    assert_eq!(scopes.find(inner, b"gold"), Some(VarRef { scope: root, index: 0 }));
    assert_eq!(scopes.find(inner, b"silver"), Some(VarRef { scope: inner, index: 0 }));
    assert_eq!(scopes.level(root), 0);
    assert_eq!(scopes.level(inner), 1);
}

#[test]
fn filtered_lookups() {
    let mut scopes = Scopes::new();
    let root = scopes.push(Scope::new(ScopeKind::new(SCOPE_GLOBAL), span()));
    let inner = scopes.push(Scope::child(root, ScopeKind::new(SCOPE_TYPE), span()));
    scopes.insert(root, var("gold")).unwrap();
    scopes.insert(inner, var("silver")).unwrap();
    let only_types = ScopeKind::new(SCOPE_TYPE);
    let all = ScopeKind::new(SCOPE_GLOBAL | SCOPE_TYPE | SCOPE_RECURSIVE);
    assert_eq!(scopes.find_filtered(inner, b"silver", only_types), Some(VarRef { scope: inner, index: 0 }));
    assert_eq!(scopes.find_filtered(inner, b"gold", only_types), None);
    assert_eq!(scopes.find_filtered(inner, b"gold", all), Some(VarRef { scope: root, index: 0 }));
    assert!(!scopes.has_filtered(inner, b"silver", ScopeKind::new(SCOPE_GLOBAL | SCOPE_RECURSIVE)));
    assert!(scopes.has_filtered(inner, b"gold", ScopeKind::new(SCOPE_GLOBAL | SCOPE_RECURSIVE)));
}

#[test]
fn setting_a_parent() {
    let mut scopes = Scopes::new();
    let root = scopes.push(Scope::new(ScopeKind::new(SCOPE_GLOBAL), span()));
    let loose = scopes.push(Scope::new(ScopeKind::new(SCOPE_TYPE), span()));
    let other = scopes.push(Scope::new(ScopeKind::new(SCOPE_TYPE), span()));
    scopes.insert(root, var("gold")).unwrap();
    scopes.insert(loose, var("silver")).unwrap();
    scopes.insert(other, var("gold")).unwrap();
    assert_eq!(scopes.set_parent(loose, root), Ok(()));
    assert_eq!(scopes.parent(loose), Some(root));
    assert_eq!(scopes.set_parent(loose, root), Err(AstErrorKind::InvalidOperation(SET_PARENT_REASON)));
    match scopes.set_parent(other, root) {
        Err(AstErrorKind::DuplicateDefinition(n, _, _)) => assert_eq!(n, b"gold".to_vec()),
        r => panic!("{:?}", r),
    }
    assert_eq!(scopes.parent(other), None);
}

#[test]
fn scope_kind_text() {
    assert_eq!(ScopeKind::empty().to_string(), "[]");
    assert_eq!(ScopeKind::new(SCOPE_GLOBAL).to_string(), "[Global]");
    assert_eq!(ScopeKind::new(SCOPE_TYPE | SCOPE_RECURSIVE).to_string(), "[Type, Recursive]");
    assert_eq!(ScopeKind::from_bits_truncate(0xFFFF).to_string(), "[Global, Type, FnParam, FnLocal, Recursive, Instance, Remote]");
    let mut k = ScopeKind::new(SCOPE_TYPE | SCOPE_RECURSIVE);
    k.remove(ScopeKind::new(SCOPE_RECURSIVE));
    assert_eq!(k.bits(), SCOPE_TYPE);
    assert!(ScopeKind::new(SCOPE_TYPE | SCOPE_RECURSIVE).contains(ScopeKind::new(SCOPE_TYPE)));
    assert!(!ScopeKind::new(SCOPE_TYPE).contains(ScopeKind::new(SCOPE_TYPE | SCOPE_RECURSIVE)));
}
