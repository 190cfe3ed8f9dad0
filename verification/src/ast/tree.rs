use vstd::prelude::*;
use vstd::string::StringExecFns;
use std::sync::Arc;
use crate::compile::token::{TokenSpan, TokenValue, bytes_eq, name_bytes, slice_to_vec, string_eq};
use super::{AstErrorKind, ItemRef, ItemRefMut, is_duplicate};
use super::ty::{
    Array,
    EarlyRefType,
    SubType,
    Redemption,
    Upgrade,
    Event,
    Precedence,
    RemoteEvent,
    User,
    UserGroup,
    AutoGrouping,
    BaseCustomType,
    Collectable,
    CollectableGroup,
    Function,
    MembershipMode,
    Object,
    RemoteFunction,
    ArrayName,
    CustomType,
    PrimitiveType,
    Type,
    all_primitive_types,
    custom_name,
    custom_scopes,
    primitive_name,
    primitive_name_bytes,
    type_name_bytes,
    type_name_value,
    type_scopes,
    base_type_name,
    custom_base,
};
use super::resolve::{expr_found, init_in, inits_in, lemma_expr_scopes_in_mono, lemma_scope_resolved_trans, lookup_in, scope_resolved};
use super::var::{Scope, ScopeKind, Scopes, Variable, VarRef, inits_found, scope_find, lemma_lookup_shape, lemma_same_shape_trans, same_shape, SCOPE_FN_LOCAL, SCOPE_FN_PARAM, SCOPE_GLOBAL, SCOPE_RECURSIVE, SCOPE_TYPE, scopes_wf, scope_has, var_name, var_added};

verus! {

/// The index of the type of that name, if there is one.
pub open spec fn find_type(types: Seq<Type>, name: Seq<u8>) -> Option<int> {
    if exists|i: int| 0 <= i < types.len() && #[trigger] type_name_bytes(types[i]) == name {
        Some(choose|i: int| 0 <= i < types.len() && #[trigger] type_name_bytes(types[i]) == name)
    } else {
        None
    }
}

/// Whether a type is the primitive type `p` under its own name.
pub open spec fn primitive_entry(t: Type, p: PrimitiveType) -> bool {
    t matches Type::Primitive(q, n, _) && q == p && name_bytes(n) == primitive_name(p)
}

/// No two types share a name.
pub open spec fn type_names_unique(types: Seq<Type>) -> bool {
    forall|i: int, j: int|
        0 <= i < types.len() && 0 <= j < types.len() && i != j ==> type_name_bytes(#[trigger] types[i])
            != type_name_bytes(#[trigger] types[j])
}

/// The decimal digits of a number.
pub open spec fn decimal_text(v: nat) -> Seq<u8>
    decreases v,
{
    if v < 10 {
        seq![(48 + v) as u8]
    } else {
        decimal_text(v / 10).push((48 + v % 10) as u8)
    }
}

/// The name of an array type: `array`, then ` x ` and its length, then
/// ` of ` and its element type, each where it has one.
pub open spec fn array_name_text(n: ArrayName) -> Seq<u8> {
    let base = seq![97u8, 114u8, 114u8, 97u8, 121u8];
    let with_len = match n.length {
        Some(l) => base + seq![32u8, 120u8, 32u8] + decimal_text(l as nat),
        None => base,
    };
    match n.of_type {
        Some(t) => with_len + seq![32u8, 111u8, 102u8, 32u8] + name_bytes(t),
        None => with_len,
    }
}

/// The digits of `v`.
pub fn decimal_bytes(v: u64) -> (r: Vec<u8>)
    ensures
        r@ == decimal_text(v as nat),
    decreases v,
{
    if v < 10 {
        let r = vec![(48 + v) as u8];
        assert(r@ =~= decimal_text(v as nat));
        r
    } else {
        let mut r = decimal_bytes(v / 10);
        r.push((48 + v % 10) as u8);
        r
    }
}

/// Appends the bytes of `s` to `v`.
pub fn append_bytes(v: &mut Vec<u8>, s: &[u8])
    ensures
        final(v)@ == old(v)@ + s@,
{
    let mut i: usize = 0;
    while i < s.len()
        invariant
            i <= s@.len(),
            v@ == old(v)@ + s@.take(i as int),
        decreases s@.len() - i,
    {
        v.push(s[i]);
        i = i + 1;
        assert(v@ =~= old(v)@ + s@.take(i as int));
    }
    assert(s@.take(s@.len() as int) =~= s@);
}

impl ArrayName {
    /// The name of the array type, as in `array x 3 of integer`.
    pub fn to_text(&self) -> (r: Vec<u8>)
        ensures
            r@ == array_name_text(*self),
    {
        let mut r = vec![97u8, 114u8, 114u8, 97u8, 121u8];
        if let Some(l) = self.length {
            append_bytes(&mut r, &[32u8, 120u8, 32u8]);
            let d = decimal_bytes(l as u64);
            append_bytes(&mut r, d.as_slice());
        }
        if let Some(t) = &self.of_type {
            append_bytes(&mut r, &[32u8, 111u8, 102u8, 32u8]);
            append_bytes(&mut r, t.value().as_slice());
        }
        assert(r@ =~= array_name_text(*self));
        r
    }
}

/// Whether two array names are the same key: the same length, and the same
/// element type name at the same place.
fn array_name_matches(a: &ArrayName, b: &ArrayName) -> (r: bool)
    ensures
        r ==> a.length == b.length && (a.of_type is Some <==> b.of_type is Some) && (
        a.of_type is Some ==> name_bytes(a.of_type.unwrap()) == name_bytes(b.of_type.unwrap())),
{
    if a.length != b.length {
        return false;
    }
    match (&a.of_type, &b.of_type) {
        (None, None) => true,
        (Some(x), Some(y)) => {
            let sx = x.span();
            let sy = y.span();
            bytes_eq(x.value().as_slice(), y.value().as_slice()) && sx.line == sy.line
                && sx.end_line == sy.end_line && sx.start == sy.start && sx.end == sy.end
                && string_eq(&sx.filename, &sy.filename)
        },
        _ => false,
    }
}

/// A copy of an array name.
fn clone_array_name(n: &ArrayName) -> (r: ArrayName)
    ensures
        r.length == n.length,
        r.of_type is Some <==> n.of_type is Some,
        n.of_type is Some ==> name_bytes(r.of_type.unwrap()) == name_bytes(n.of_type.unwrap())
            && r.of_type.unwrap().spec_span() == n.of_type.unwrap().spec_span(),
{
    let of_type = match &n.of_type {
        Some(t) => Some(t.clone_name()),
        None => None,
    };
    ArrayName { length: n.length, of_type }
}

/// The indices of the primitive types among the program's types.
#[derive(Debug, Copy, Clone, PartialEq, Eq, Structural)]
pub struct PrimitiveTypeSet {
    void: usize,
    option: usize,
    text: usize,
    localized_text: usize,
    integer: usize,
    decimal: usize,
    date_time: usize,
    time_span: usize,
    object: usize,
    array: usize,
}

/// The index of each primitive type among the types of a new program.
pub open spec fn primitive_slot(t: PrimitiveType) -> usize {
    match t {
        PrimitiveType::Void => 0,
        PrimitiveType::Option => 1,
        PrimitiveType::Text => 2,
        PrimitiveType::LocalizedText => 3,
        PrimitiveType::Integer => 4,
        PrimitiveType::Decimal => 5,
        PrimitiveType::DateTime => 6,
        PrimitiveType::TimeSpan => 7,
        PrimitiveType::Object => 8,
        PrimitiveType::Array => 9,
    }
}

impl PrimitiveTypeSet {
    pub closed spec fn spec_index(&self, t: PrimitiveType) -> usize {
        match t {
            PrimitiveType::Void => self.void,
            PrimitiveType::Option => self.option,
            PrimitiveType::Text => self.text,
            PrimitiveType::LocalizedText => self.localized_text,
            PrimitiveType::Integer => self.integer,
            PrimitiveType::Decimal => self.decimal,
            PrimitiveType::DateTime => self.date_time,
            PrimitiveType::TimeSpan => self.time_span,
            PrimitiveType::Object => self.object,
            PrimitiveType::Array => self.array,
        }
    }

    /// Looks up each primitive type by its name.
    pub fn new(types: &Vec<Type>) -> (r: Self)
        requires
            type_names_unique(types@),
            forall|t: PrimitiveType| #[trigger] find_type(types@, primitive_name(t)) is Some,
        ensures
            forall|t: PrimitiveType| #[trigger] r.spec_index(t) == find_type(types@, primitive_name(t)).unwrap(),
    {
        let void = find_type_index(types, primitive_name_bytes(PrimitiveType::Void).as_slice()).unwrap();
        let option = find_type_index(types, primitive_name_bytes(PrimitiveType::Option).as_slice()).unwrap();
        let text = find_type_index(types, primitive_name_bytes(PrimitiveType::Text).as_slice()).unwrap();
        let localized_text = find_type_index(types, primitive_name_bytes(PrimitiveType::LocalizedText).as_slice()).unwrap();
        let integer = find_type_index(types, primitive_name_bytes(PrimitiveType::Integer).as_slice()).unwrap();
        let decimal = find_type_index(types, primitive_name_bytes(PrimitiveType::Decimal).as_slice()).unwrap();
        let date_time = find_type_index(types, primitive_name_bytes(PrimitiveType::DateTime).as_slice()).unwrap();
        let time_span = find_type_index(types, primitive_name_bytes(PrimitiveType::TimeSpan).as_slice()).unwrap();
        let object = find_type_index(types, primitive_name_bytes(PrimitiveType::Object).as_slice()).unwrap();
        let array = find_type_index(types, primitive_name_bytes(PrimitiveType::Array).as_slice()).unwrap();
        let r = PrimitiveTypeSet {
            void,
            option,
            text,
            localized_text,
            integer,
            decimal,
            date_time,
            time_span,
            object,
            array,
        };
        proof {
            assert forall|t: PrimitiveType|
                #[trigger] r.spec_index(t) == find_type(types@, primitive_name(t)).unwrap() by {
                match t {
                    PrimitiveType::Void => {},
                    PrimitiveType::Option => {},
                    PrimitiveType::Text => {},
                    PrimitiveType::LocalizedText => {},
                    PrimitiveType::Integer => {},
                    PrimitiveType::Decimal => {},
                    PrimitiveType::DateTime => {},
                    PrimitiveType::TimeSpan => {},
                    PrimitiveType::Object => {},
                    PrimitiveType::Array => {},
                }
            }
        }
        r
    }

    pub fn void(&self) -> (r: usize)
        ensures
            r == self.spec_index(PrimitiveType::Void),
    {
        self.void
    }

    pub fn option(&self) -> (r: usize)
        ensures
            r == self.spec_index(PrimitiveType::Option),
    {
        self.option
    }

    pub fn text(&self) -> (r: usize)
        ensures
            r == self.spec_index(PrimitiveType::Text),
    {
        self.text
    }

    pub fn localized_text(&self) -> (r: usize)
        ensures
            r == self.spec_index(PrimitiveType::LocalizedText),
    {
        self.localized_text
    }

    pub fn integer(&self) -> (r: usize)
        ensures
            r == self.spec_index(PrimitiveType::Integer),
    {
        self.integer
    }

    pub fn decimal(&self) -> (r: usize)
        ensures
            r == self.spec_index(PrimitiveType::Decimal),
    {
        self.decimal
    }

    pub fn date_time(&self) -> (r: usize)
        ensures
            r == self.spec_index(PrimitiveType::DateTime),
    {
        self.date_time
    }

    pub fn time_span(&self) -> (r: usize)
        ensures
            r == self.spec_index(PrimitiveType::TimeSpan),
    {
        self.time_span
    }

    pub fn object(&self) -> (r: usize)
        ensures
            r == self.spec_index(PrimitiveType::Object),
    {
        self.object
    }

    pub fn array(&self) -> (r: usize)
        ensures
            r == self.spec_index(PrimitiveType::Array),
    {
        self.array
    }
}

/// Looks for a type by name.
pub fn find_type_index(types: &Vec<Type>, name: &[u8]) -> (r: Option<usize>)
    requires
        type_names_unique(types@),
    ensures
        r matches Some(i) ==> find_type(types@, name@) == Some(i as int) && i < types@.len(),
        r is None ==> find_type(types@, name@) is None,
{
    let mut i: usize = 0;
    while i < types.len()
        invariant
            i <= types@.len(),
            type_names_unique(types@),
            forall|j: int| 0 <= j < i ==> type_name_bytes(#[trigger] types@[j]) != name@,
        decreases types@.len() - i,
    {
        if bytes_eq(types[i].name().value().as_slice(), name) {
            proof {
                assert(type_name_bytes(types@[i as int]) == name@);
                let k = find_type(types@, name@).unwrap();
                assert(type_name_bytes(types@[k]) == name@);
            }
            return Some(i);
        }
        i = i + 1;
    }
    None
}

/// The program read so far: its types, each known by its index and found by
/// its name, and its scopes, the first of which is the global scope.
#[derive(Debug)]
pub struct Ast {
    types: Vec<Type>,
    primitive_types: PrimitiveTypeSet,
    array_names: Vec<(ArrayName, Vec<u8>)>,
    scopes: Scopes,
    internal_path: Arc<String>,
}

/// The index of the global scope.
pub const GLOBAL_SCOPE: usize = 0;

impl Ast {
    pub closed spec fn spec_types(&self) -> Seq<Type> {
        self.types@
    }

    pub closed spec fn spec_scopes(&self) -> Seq<Scope> {
        self.scopes@
    }

    pub closed spec fn spec_internal_path(&self) -> Seq<char> {
        self.internal_path@
    }

    /// The program's invariant: scopes in order, the global one first;
    /// names of types unique; the primitive types first, in order; every
    /// scope of a type existing; every remembered array name correct.
    pub closed spec fn wf(&self) -> bool {
        &&& scopes_wf(self.scopes@)
        &&& self.scopes@.len() >= 1
        &&& self.scopes@[0].parent is None
        &&& type_names_unique(self.types@)
        &&& self.types@.len() >= 10
        &&& forall|t: PrimitiveType| primitive_entry(#[trigger] self.types@[primitive_slot(t) as int], t)
        &&& forall|t: PrimitiveType| #[trigger] self.primitive_types.spec_index(t) == primitive_slot(t)
        &&& forall|i: int, k: int|
            0 <= i < self.types@.len() && 0 <= k < type_scopes(self.types@[i]).len() ==> (
            #[trigger] type_scopes(self.types@[i])[k]) < self.scopes@.len()
        &&& forall|i: int|
            0 <= i < self.types@.len() ==> (#[trigger] self.types@[i] matches Type::Custom(
                CustomType::CollectableGroup(g),
            ) ==> g.self_ref == i)
        &&& forall|k: int|
            0 <= k < self.array_names@.len() ==> (#[trigger] self.array_names@[k]).1@
                == array_name_text(self.array_names@[k].0)
        &&& inits_in(self.scopes@)
        &&& links_valid(self.types@)
        &&& forall|i: int| 0 <= i < self.types@.len() ==> #[trigger] not_own_sub(self.types@, i)
    }

    /// A new program that knows only the primitive types, each with a scope
    /// of its own inside the global scope.
    pub fn new() -> (r: Self)
        ensures
            r.wf(),
            r.spec_types().len() == 10,
            r.spec_scopes().len() == 11,
            r.spec_scopes()[0].kind@ == SCOPE_GLOBAL,
            r.spec_scopes()[0].vars@.len() == 0,
            forall|i: int|
                0 <= i < 10 ==> primitive_entry(#[trigger] r.spec_types()[i], all_primitive_types()[i])
                    && type_scopes(r.spec_types()[i]) == seq![(i + 1) as usize],
            r.spec_internal_path() == "(internal)"@,
    {
        let global_path = Arc::new(<String as StringExecFns>::from_str("(global)"));
        let internal_path = Arc::new(<String as StringExecFns>::from_str("(internal)"));
        let mut scopes = Scopes::new();
        scopes.push(Scope::new(ScopeKind::from_bits_truncate(SCOPE_GLOBAL), TokenSpan::new(global_path)));
        let mut types: Vec<Type> = Vec::new();
        let all = PrimitiveType::iter();
        let pt_span = TokenSpan::new(internal_path.clone());
        let mut k: usize = 0;
        while k < all.len()
            invariant
                all@ == all_primitive_types(),
                k <= 10,
                types@.len() == k,
                scopes@.len() == k + 1,
                scopes_wf(scopes@),
                scopes@[0].parent is None,
                scopes@[0].kind@ == SCOPE_GLOBAL & 0x7F,
                scopes@[0].vars@.len() == 0,
                forall|s: int| 0 <= s < scopes@.len() ==> (#[trigger] scopes@[s]).vars@.len() == 0,
                forall|i: int|
                    0 <= i < k ==> primitive_entry(#[trigger] types@[i], all_primitive_types()[i])
                        && type_scopes(types@[i]) == seq![(i + 1) as usize],
            decreases 10 - k,
        {
            let pt = all[k];
            let name = TokenValue::new(primitive_name_bytes(pt), pt_span.clone());
            let scope = scopes.push(Scope::child(GLOBAL_SCOPE, ScopeKind::from_bits_truncate(SCOPE_TYPE), pt_span.clone()));
            types.push(Type::Primitive(pt, name, scope));
            k = k + 1;
        }
        assert(SCOPE_GLOBAL & 0x7F == SCOPE_GLOBAL) by (bit_vector);
        proof {
            assert forall|i: int, j: int| 0 <= i < types@.len() && 0 <= j < types@.len() && i != j
                implies type_name_bytes(#[trigger] types@[i]) != type_name_bytes(#[trigger] types@[j]) by {
                lemma_primitive_names_differ(all_primitive_types()[i], all_primitive_types()[j]);
            }
            assert forall|t: PrimitiveType| #[trigger] find_type(types@, primitive_name(t)) is Some by {
                let i = primitive_slot(t) as int;
                assert(all_primitive_types()[i] == t);
                assert(type_name_bytes(types@[i]) == primitive_name(t));
            }
        }
        let primitive_types = PrimitiveTypeSet::new(&types);
        let ast = Ast { types, primitive_types, array_names: Vec::new(), scopes, internal_path };
        proof {
            assert forall|t: PrimitiveType| primitive_entry(#[trigger] ast.types@[primitive_slot(t) as int], t) by {
                assert(all_primitive_types()[primitive_slot(t) as int] == t);
            }
            assert forall|t: PrimitiveType| #[trigger] ast.primitive_types.spec_index(t) == primitive_slot(t) by {
                let i = primitive_slot(t) as int;
                assert(all_primitive_types()[i] == t);
                assert(type_name_bytes(ast.types@[i]) == primitive_name(t));
            }
        }
        ast
    }
}

/// Different primitive types have different names.
pub proof fn lemma_primitive_names_differ(a: PrimitiveType, b: PrimitiveType)
    requires
        a != b,
    ensures
        primitive_name(a) != primitive_name(b),
{
    if primitive_name(a) == primitive_name(b) {
        assert(primitive_name(a).len() == primitive_name(b).len());
        assert(primitive_name(a)[0] == primitive_name(b)[0]);
        assert(primitive_name(a)[1] == primitive_name(b)[1]);
    }
}

/// The array type made for a name: named by the name's text at the start
/// of the internal path, with the name's length and element type.
pub open spec fn is_array_for(a: Array, name: ArrayName, internal: Seq<char>) -> bool {
    &&& name_bytes(a.name) == array_name_text(name)
    &&& a.name.spec_span().filename@ == internal
    &&& a.name.spec_span().line == 1
    &&& a.name.spec_span().end_line == 1
    &&& a.name.spec_span().start == 1
    &&& a.name.spec_span().end == 1
    &&& a.max_length == name.length
    &&& match name.of_type {
        Some(t) => a.ty == Some(ItemRef { name: t, item: None }),
        None => a.ty is None,
    }
}

/// The kinds of the scope of a fresh custom type, by its base type (for a
/// function, of its parameter scope).
pub open spec fn fresh_scope_bits(b: BaseCustomType) -> u16 {
    match b {
        BaseCustomType::Object => (SCOPE_TYPE | SCOPE_RECURSIVE) as u16,
        BaseCustomType::Collectable => (SCOPE_TYPE | SCOPE_RECURSIVE) as u16,
        BaseCustomType::CollectableGroup => (SCOPE_TYPE | SCOPE_RECURSIVE) as u16,
        BaseCustomType::Function => SCOPE_FN_PARAM,
        BaseCustomType::RemoteFunction => SCOPE_FN_PARAM,
        _ => SCOPE_TYPE,
    }
}

/// A new empty scope.
pub open spec fn is_fresh_scope(s: Scope, parent: Option<usize>, bits: u16, span: TokenSpan) -> bool {
    &&& s.kind@ == bits
    &&& s.vars@.len() == 0
    &&& s.parent == parent
    &&& s.span == span
}

/// The scopes `new` are `old` with the scopes of a fresh custom type of
/// kind `b` added: one inside the global scope, and for a function a scope
/// for its locals inside that one.
pub open spec fn fresh_scopes_added(old: Seq<Scope>, new: Seq<Scope>, b: BaseCustomType, span: TokenSpan) -> bool {
    let n = old.len();
    &&& new.take(n as int) == old
    &&& is_fresh_scope(new[n as int], Some(GLOBAL_SCOPE), fresh_scope_bits(b), span)
    &&& if b == BaseCustomType::Function {
        new.len() == n + 2 && is_fresh_scope(new[n as int + 1], Some(n as usize), SCOPE_FN_LOCAL, span)
    } else {
        new.len() == n + 1
    }
}

/// A custom type just defined by name, with nothing in it yet: `s` is the
/// index of its first scope and `i` its own index.
pub open spec fn is_fresh_custom(t: CustomType, b: BaseCustomType, name: TokenValue<Vec<u8>>, s: usize, i: usize) -> bool {
    match b {
        BaseCustomType::Object => t == CustomType::Object(
            Object { name, dynamic: false, scope: s, super_type: None },
        ),
        BaseCustomType::Collectable => t == CustomType::Collectable(
            Collectable {
                name,
                parent: None,
                auto_grouping: AutoGrouping::Inherit,
                scope: s,
                upgrades: None,
                redemptions: None,
            },
        ),
        BaseCustomType::CollectableGroup => t matches CustomType::CollectableGroup(g) && g.name == name
            && g.self_ref == i && g.auto_grouping == AutoGrouping::Inherit && g.parent is None
            && g.scope == s && g.collectables@.len() == 0 && g.sub_groups@.len() == 0
            && g.upgrades is None && g.redemptions is None,
        BaseCustomType::User => t matches CustomType::User(u) && u.name == name && u.properties@.len()
            == 0 && u.scope == s,
        BaseCustomType::UserGroup => t matches CustomType::UserGroup(g) && g.name == name && g.scope
            == s && g.membership_mode == MembershipMode::Allow && g.except_members@.len() == 0
            && g.deny_with@.len() == 0 && g.precedence is Undefined,
        BaseCustomType::Event => t matches CustomType::Event(e) && e.name == name && e.params@.len()
            == 0 && e.scope == s,
        BaseCustomType::RemoteEvent => t matches CustomType::RemoteEvent(e) && e.name == name
            && e.params@.len() == 0 && e.scope == s,
        BaseCustomType::Function => t == CustomType::Function(
            Function { name, param_scope: s, local_scope: (s + 1) as usize },
        ),
        BaseCustomType::RemoteFunction => t == CustomType::RemoteFunction(
            RemoteFunction { name, param_scope: s },
        ),
        _ => false,
    }
}

/// The program `new` is `old` with an empty custom type of kind `b` defined
/// by `name`, when no type of that name was defined; else it is unchanged and
/// `r` is the error that names the second definition.
pub open spec fn defined_fresh(
    old: Ast,
    new: Ast,
    b: BaseCustomType,
    name: TokenValue<Vec<u8>>,
    r: Result<usize, AstErrorKind>,
) -> bool {
    &&& new.spec_internal_path() == old.spec_internal_path()
    &&& find_type(old.spec_types(), name_bytes(name)) is Some ==> new.spec_types() == old.spec_types()
        && new.spec_scopes() == old.spec_scopes() && (r matches Err(e) && is_duplicate(
        e,
        name_bytes(name),
        name.spec_span(),
        base_type_name(b),
    ))
    &&& find_type(old.spec_types(), name_bytes(name)) is None ==> (r matches Ok(i) && i
        == old.spec_types().len()) && fresh_type_added(old, new, b, name)
}

/// The program `new` is `old` with an empty custom type of kind `b` named
/// `name` added after its types, and the new type's scopes after its scopes.
pub open spec fn fresh_type_added(old: Ast, new: Ast, b: BaseCustomType, name: TokenValue<Vec<u8>>) -> bool {
    &&& new.spec_types().len() == old.spec_types().len() + 1
    &&& new.spec_types().take(old.spec_types().len() as int) == old.spec_types()
    &&& (new.spec_types().last() matches Type::Custom(c) && is_fresh_custom(
        c,
        b,
        name,
        old.spec_scopes().len() as usize,
        old.spec_types().len() as usize,
    ))
    &&& fresh_scopes_added(old.spec_scopes(), new.spec_scopes(), b, name.spec_span())
}

/// The type `t`, with its own index recorded when it is a group.
pub open spec fn with_self_ref(t: CustomType, i: usize) -> CustomType {
    match t {
        CustomType::CollectableGroup(g) => CustomType::CollectableGroup(
            CollectableGroup { self_ref: i, ..g },
        ),
        _ => t,
    }
}

impl Ast {
    /// The index of the global scope.
    pub fn scope(&self) -> (r: usize)
        ensures
            r == GLOBAL_SCOPE,
    {
        GLOBAL_SCOPE
    }

    /// The path given to items that have no place in a source file.
    pub fn internal_path(&self) -> (r: Arc<String>)
        ensures
            r@ == self.spec_internal_path(),
    {
        self.internal_path.clone()
    }

    /// The indices of the primitive types.
    pub fn primitive(&self) -> (r: PrimitiveTypeSet)
        requires
            self.wf(),
        ensures
            forall|t: PrimitiveType| #[trigger] r.spec_index(t) == primitive_slot(t),
    {
        self.primitive_types
    }

    pub fn types_len(&self) -> (r: usize)
        ensures
            r == self.spec_types().len(),
    {
        self.types.len()
    }

    pub fn type_at(&self, i: usize) -> (r: &Type)
        requires
            i < self.spec_types().len(),
        ensures
            *r == self.spec_types()[i as int],
    {
        &self.types[i]
    }

    pub fn scopes(&self) -> (r: &Scopes)
        ensures
            r@ == self.spec_scopes(),
    {
        &self.scopes
    }

    /// The type of that name.
    pub fn find(&self, name: &[u8]) -> (r: Option<usize>)
        requires
            self.wf(),
        ensures
            r matches Some(i) ==> find_type(self.spec_types(), name@) == Some(i as int),
            r is None ==> find_type(self.spec_types(), name@) is None,
    {
        find_type_index(&self.types, name)
    }

    /// The custom type of that name, when the type of that name is custom.
    pub fn find_custom(&self, name: &[u8]) -> (r: Option<usize>)
        requires
            self.wf(),
        ensures
            r matches Some(i) ==> find_type(self.spec_types(), name@) == Some(i as int)
                && self.spec_types()[i as int] is Custom,
            r is None ==> match find_type(self.spec_types(), name@) {
                Some(i) => self.spec_types()[i] is Primitive,
                None => true,
            },
    {
        match find_type_index(&self.types, name) {
            Some(i) => if self.types[i].is_custom() {
                Some(i)
            } else {
                None
            },
            None => None,
        }
    }

    /// Adds a scope whose parent exists.
    fn add_scope(&mut self, scope: Scope) -> (id: usize)
        requires
            old(self).wf(),
            scope.parent matches Some(p) ==> p < old(self).spec_scopes().len(),
            scope.vars@.len() == 0,
        ensures
            final(self).wf(),
            id == old(self).spec_scopes().len(),
            final(self).spec_scopes() == old(self).spec_scopes().push(scope),
            final(self).spec_types() == old(self).spec_types(),
            final(self).spec_internal_path() == old(self).spec_internal_path(),
    {
        let id = self.scopes.push(scope);
        proof {
            assert forall|s: int, k: int|
                0 <= s < self.scopes@.len() && 0 <= k < self.scopes@[s].vars@.len() implies init_in(
                #[trigger] self.scopes@[s].vars@[k],
                self.scopes@.len(),
            ) by {
                if s < id {
                    assert(self.scopes@[s] == old(self).scopes@[s]);
                    let v = self.scopes@[s].vars@[k];
                    assert(init_in(old(self).scopes@[s].vars@[k], old(self).scopes@.len()));
                    if let Some(e) = v.initial {
                        lemma_expr_scopes_in_mono(e, old(self).scopes@.len(), self.scopes@.len());
                    }
                }
            }
            assert forall|i: int, k: int|
                0 <= i < self.types@.len() && 0 <= k < type_scopes(self.types@[i]).len() implies (
                #[trigger] type_scopes(self.types@[i])[k]) < self.scopes@.len() by {
                assert(type_scopes(old(self).types@[i])[k] < old(self).scopes@.len());
            }
        }
        id
    }

    /// Adds a custom type, refused when a type of its name exists. A group
    /// learns its own index.
    pub fn insert_type(&mut self, ty: CustomType) -> (r: Result<usize, AstErrorKind>)
        requires
            old(self).wf(),
            forall|k: int|
                0 <= k < custom_scopes(ty).len() ==> #[trigger] custom_scopes(ty)[k] < old(self).spec_scopes().len(),
            links_in(old(self).spec_types(), Type::Custom(ty)),
            custom_not_own_sub(ty, old(self).spec_types().len() as int),
        ensures
            final(self).wf(),
            final(self).spec_scopes() == old(self).spec_scopes(),
            final(self).spec_internal_path() == old(self).spec_internal_path(),
            find_type(old(self).spec_types(), name_bytes(custom_name(ty))) is Some ==> final(self).spec_types() == old(self).spec_types() && (r matches Err(e) && is_duplicate(
                e,
                name_bytes(custom_name(ty)),
                custom_name(ty).spec_span(),
                base_type_name(custom_base(ty)),
            )),
            find_type(old(self).spec_types(), name_bytes(custom_name(ty))) is None ==> (r matches Ok(i) && i
                == old(self).spec_types().len()) && final(self).spec_types() == old(self).spec_types().push(Type::Custom(with_self_ref(ty, old(self).spec_types().len() as usize))),
    {
        if find_type_index(&self.types, ty.name().value().as_slice()).is_some() {
            let what = ty.item_name();
            let name = ty.name().clone_name();
            let span = name.span().clone();
            return Err(AstErrorKind::DuplicateDefinition(name.into_inner(), span, what));
        }
        let index = self.types.len();
        let ghost orig = ty;
        let stored = match ty {
            CustomType::CollectableGroup(g) => CustomType::CollectableGroup(
                CollectableGroup { self_ref: index, ..g },
            ),
            other => other,
        };
        assert(custom_scopes(stored) == custom_scopes(orig));
        assert(custom_name(stored) == custom_name(orig));
        self.types.push(Type::Custom(stored));
        proof {
            let ty = orig;
            let t = Type::Custom(stored);
            assert(self.types@ == old(self).types@.push(t));
            assert(type_name_bytes(t) == name_bytes(custom_name(ty)));
            assert forall|i: int, j: int|
                0 <= i < self.types@.len() && 0 <= j < self.types@.len() && i != j implies type_name_bytes(
                #[trigger] self.types@[i],
            ) != type_name_bytes(#[trigger] self.types@[j]) by {
                if i == index as int {
                    assert(type_name_bytes(old(self).types@[j]) != name_bytes(custom_name(ty)));
                } else if j == index as int {
                    assert(type_name_bytes(old(self).types@[i]) != name_bytes(custom_name(ty)));
                }
            }
            assert forall|i: int, k: int|
                0 <= i < self.types@.len() && 0 <= k < type_scopes(self.types@[i]).len() implies (
                #[trigger] type_scopes(self.types@[i])[k]) < self.scopes@.len() by {
                if i < index {
                    assert(type_scopes(old(self).types@[i])[k] < old(self).scopes@.len());
                } else {
                    assert(type_scopes(self.types@[i]) == custom_scopes(orig));
                }
            }
            assert forall|t: PrimitiveType| primitive_entry(#[trigger] self.types@[primitive_slot(t) as int], t) by {
                assert(primitive_entry(old(self).types@[primitive_slot(t) as int], t));
            }
            assert forall|i: int| 0 <= i < old(self).types@.len() implies same_kind(#[trigger] old(self).types@[i], self.types@[i]) by {
                lemma_same_kind_refl(old(self).types@[i]);
            }
            lemma_links_grow(old(self).types@, self.types@, Type::Custom(orig));
            assert(links_in(self.types@, t));
            lemma_links_valid_grow(old(self).types@, self.types@);
            assert forall|a: int| 0 <= a < self.types@.len() implies #[trigger] not_own_sub(self.types@, a) by {
                if a < index {
                    assert(not_own_sub(old(self).types@, a));
                }
            }
        }
        Ok(index)
    }

    /// Defines an empty custom type of kind `b` by name, with its scopes.
    /// It is refused when a type of that name exists; then nothing changes.
    pub fn insert_fresh(&mut self, b: BaseCustomType, name: TokenValue<Vec<u8>>) -> (r: Result<
        usize,
        AstErrorKind,
    >)
        requires
            old(self).wf(),
            b != BaseCustomType::Array,
            b != BaseCustomType::EarlyRef,
        ensures
            final(self).wf(),
            defined_fresh(*old(self), *final(self), b, name, r),
            r is Err ==> *final(self) == *old(self),
    {
        if self.find(name.value().as_slice()).is_some() {
            let span = name.span().clone();
            return Err(AstErrorKind::DuplicateDefinition(name.into_inner(), span, b.as_str()));
        }
        let span = name.span().clone();
        let bits: u16 = match b {
            BaseCustomType::Object => SCOPE_TYPE | SCOPE_RECURSIVE,
            BaseCustomType::Collectable => SCOPE_TYPE | SCOPE_RECURSIVE,
            BaseCustomType::CollectableGroup => SCOPE_TYPE | SCOPE_RECURSIVE,
            BaseCustomType::Function => SCOPE_FN_PARAM,
            BaseCustomType::RemoteFunction => SCOPE_FN_PARAM,
            _ => SCOPE_TYPE,
        };
        let scope = self.add_scope(Scope::child(GLOBAL_SCOPE, ScopeKind::new(bits), span.clone()));
        let ghost scopes1 = self.spec_scopes();
        let ty = match b {
            BaseCustomType::Object => CustomType::Object(
                Object { name, dynamic: false, scope, super_type: None },
            ),
            BaseCustomType::Collectable => CustomType::Collectable(
                Collectable {
                    name,
                    parent: None,
                    auto_grouping: AutoGrouping::Inherit,
                    scope,
                    upgrades: None,
                    redemptions: None,
                },
            ),
            BaseCustomType::CollectableGroup => CustomType::CollectableGroup(
                CollectableGroup {
                    name,
                    self_ref: 0,
                    auto_grouping: AutoGrouping::Inherit,
                    parent: None,
                    scope,
                    collectables: Vec::new(),
                    sub_groups: Vec::new(),
                    upgrades: None,
                    redemptions: None,
                },
            ),
            BaseCustomType::User => CustomType::User(User { name, properties: Vec::new(), scope }),
            BaseCustomType::UserGroup => CustomType::UserGroup(
                UserGroup {
                    name,
                    scope,
                    membership_mode: MembershipMode::Allow,
                    except_members: Vec::new(),
                    deny_with: Vec::new(),
                    precedence: Precedence::Undefined,
                },
            ),
            BaseCustomType::Event => CustomType::Event(Event { name, params: Vec::new(), scope }),
            BaseCustomType::RemoteEvent => CustomType::RemoteEvent(
                RemoteEvent { name, params: Vec::new(), scope },
            ),
            BaseCustomType::Function => {
                let local = self.add_scope(Scope::child(scope, ScopeKind::new(SCOPE_FN_LOCAL), span));
                CustomType::Function(Function { name, param_scope: scope, local_scope: local })
            },
            _ => CustomType::RemoteFunction(RemoteFunction { name, param_scope: scope }),
        };
        let r = self.insert_type(ty);
        proof {
            assert(self.spec_scopes().take(old(self).spec_scopes().len() as int) =~= old(self).spec_scopes());
            if b == BaseCustomType::Function {
                assert(self.spec_scopes()[old(self).spec_scopes().len() as int] == scopes1[old(self).spec_scopes().len() as int]);
            }
            assert(self.spec_types().take(old(self).spec_types().len() as int) =~= old(self).spec_types());
        }
        r
    }

    /// Records a new variable in a scope; refused when the scope or one
    /// around it defines the name.
    pub fn insert_variable(&mut self, scope: usize, var: Variable) -> (r: Result<VarRef, AstErrorKind>)
        requires
            old(self).wf(),
            scope < old(self).spec_scopes().len(),
            init_in(var, old(self).spec_scopes().len()),
        ensures
            final(self).wf(),
            final(self).spec_types() == old(self).spec_types(),
            final(self).spec_internal_path() == old(self).spec_internal_path(),
            scope_has(old(self).spec_scopes(), scope as int, var_name(var)) ==> final(self).spec_scopes()
                == old(self).spec_scopes() && (r matches Err(e) && is_duplicate(
                e,
                var_name(var),
                var.name.spec_span(),
                "variable",
            )),
            !scope_has(old(self).spec_scopes(), scope as int, var_name(var)) ==> r == Ok::<VarRef, AstErrorKind>(
                VarRef { scope, index: old(self).spec_scopes()[scope as int].vars@.len() as usize },
            ) && var_added(old(self).spec_scopes(), final(self).spec_scopes(), scope as int, var),
    {
        let ghost v = var;
        let r = self.scopes.insert(scope, var);
        proof {
            if r is Ok {
                assert forall|s: int, k: int|
                    0 <= s < self.scopes@.len() && 0 <= k < self.scopes@[s].vars@.len() implies init_in(
                    #[trigger] self.scopes@[s].vars@[k],
                    self.scopes@.len(),
                ) by {
                    if s != scope || k < old(self).scopes@[s].vars@.len() {
                        assert(init_in(old(self).scopes@[s].vars@[k], old(self).scopes@.len()));
                        if s == scope {
                            assert(self.scopes@[s].vars@[k] == old(self).scopes@[s].vars@[k]);
                        }
                    } else {
                        assert(self.scopes@[s].vars@[k] == v);
                    }
                }
            }
            assert forall|i: int, k: int|
                0 <= i < self.types@.len() && 0 <= k < type_scopes(self.types@[i]).len() implies (
                #[trigger] type_scopes(self.types@[i])[k]) < self.scopes@.len() by {
                assert(type_scopes(old(self).types@[i])[k] < old(self).scopes@.len());
            }
        }
        r
    }

    /// Sets how a collectable or a group groups its instances.
    pub fn set_auto_grouping(&mut self, i: usize, ag: AutoGrouping)
        requires
            old(self).wf(),
            i < old(self).spec_types().len(),
            old(self).spec_types()[i as int] matches Type::Custom(c) && (c is Collectable
                || c is CollectableGroup),
        ensures
            final(self).wf(),
            final(self).spec_scopes() == old(self).spec_scopes(),
            final(self).spec_internal_path() == old(self).spec_internal_path(),
            final(self).spec_types() == old(self).spec_types().update(
                i as int,
                match old(self).spec_types()[i as int] {
                    Type::Custom(CustomType::Collectable(c)) => Type::Custom(
                        CustomType::Collectable(Collectable { auto_grouping: ag, ..c }),
                    ),
                    Type::Custom(CustomType::CollectableGroup(g)) => Type::Custom(
                        CustomType::CollectableGroup(CollectableGroup { auto_grouping: ag, ..g }),
                    ),
                    t => t,
                },
            ),
    {
        match &mut self.types[i] {
            Type::Custom(CustomType::Collectable(c)) => c.set_auto_grouping(ag),
            Type::Custom(CustomType::CollectableGroup(g)) => g.set_auto_grouping(ag),
            _ => {},
        }
        proof {
            assert(not_own_sub(old(self).types@, i as int));
            self.lemma_wf_after_update(*old(self), i as int);
        }
    }

    /// Records the upgrades of a collectable or a group.
    pub fn insert_upgrades(&mut self, i: usize, upgrades: Vec<Upgrade>)
        requires
            old(self).wf(),
            i < old(self).spec_types().len(),
            old(self).spec_types()[i as int] matches Type::Custom(c) && (c is Collectable
                || c is CollectableGroup),
        ensures
            final(self).wf(),
            final(self).spec_scopes() == old(self).spec_scopes(),
            final(self).spec_internal_path() == old(self).spec_internal_path(),
            final(self).spec_types() == old(self).spec_types().update(
                i as int,
                match old(self).spec_types()[i as int] {
                    Type::Custom(CustomType::Collectable(c)) => Type::Custom(
                        CustomType::Collectable(Collectable { upgrades: Some(upgrades), ..c }),
                    ),
                    Type::Custom(CustomType::CollectableGroup(g)) => Type::Custom(
                        CustomType::CollectableGroup(CollectableGroup { upgrades: Some(upgrades), ..g }),
                    ),
                    t => t,
                },
            ),
    {
        match &mut self.types[i] {
            Type::Custom(CustomType::Collectable(c)) => c.insert_upgrades(upgrades),
            Type::Custom(CustomType::CollectableGroup(g)) => g.insert_upgrades(upgrades),
            _ => {},
        }
        proof {
            assert(not_own_sub(old(self).types@, i as int));
            self.lemma_wf_after_update(*old(self), i as int);
        }
    }

    /// Records the redemptions of a collectable or a group.
    pub fn insert_redemptions(&mut self, i: usize, redemptions: Vec<Redemption>)
        requires
            old(self).wf(),
            i < old(self).spec_types().len(),
            old(self).spec_types()[i as int] matches Type::Custom(c) && (c is Collectable
                || c is CollectableGroup),
        ensures
            final(self).wf(),
            final(self).spec_scopes() == old(self).spec_scopes(),
            final(self).spec_internal_path() == old(self).spec_internal_path(),
            final(self).spec_types() == old(self).spec_types().update(
                i as int,
                match old(self).spec_types()[i as int] {
                    Type::Custom(CustomType::Collectable(c)) => Type::Custom(
                        CustomType::Collectable(Collectable { redemptions: Some(redemptions), ..c }),
                    ),
                    Type::Custom(CustomType::CollectableGroup(g)) => Type::Custom(
                        CustomType::CollectableGroup(
                            CollectableGroup { redemptions: Some(redemptions), ..g },
                        ),
                    ),
                    t => t,
                },
            ),
    {
        match &mut self.types[i] {
            Type::Custom(CustomType::Collectable(c)) => c.insert_redemptions(redemptions),
            Type::Custom(CustomType::CollectableGroup(g)) => g.insert_redemptions(redemptions),
            _ => {},
        }
        proof {
            assert(not_own_sub(old(self).types@, i as int));
            self.lemma_wf_after_update(*old(self), i as int);
        }
    }

    /// The invariant holds after a type changed in place, keeping its name,
    /// its kind, its scopes and, for a group, its own index.
    proof fn lemma_wf_after_update(&self, prev: Ast, i: int)
        requires
            prev.wf(),
            0 <= i < prev.types@.len(),
            self.types@.len() == prev.types@.len(),
            forall|j: int| 0 <= j < prev.types@.len() && j != i ==> self.types@[j] == prev.types@[j],
            type_name_bytes(self.types@[i]) == type_name_bytes(prev.types@[i]),
            type_scopes(self.types@[i]) == type_scopes(prev.types@[i]),
            prev.types@[i] is Custom,
            self.types@[i] is Custom,
            self.types@[i] matches Type::Custom(CustomType::CollectableGroup(g)) ==> g.self_ref == i,
            self.scopes@ == prev.scopes@,
            self.array_names@ == prev.array_names@,
            self.primitive_types == prev.primitive_types,
            same_kind(prev.types@[i], self.types@[i]),
            links_in(self.types@, self.types@[i]),
            not_own_sub(self.types@, i),
        ensures
            self.wf(),
    {
        assert forall|a: int| 0 <= a < self.types@.len() implies #[trigger] not_own_sub(self.types@, a) by {
            if a != i {
                assert(not_own_sub(prev.types@, a));
            }
        }
        assert forall|j: int| 0 <= j < prev.types@.len() implies same_kind(#[trigger] prev.types@[j], self.types@[j]) by {
            if j != i {
                lemma_same_kind_refl(prev.types@[j]);
            }
        }
        lemma_links_valid_grow(prev.types@, self.types@);
        assert forall|a: int, b: int|
            0 <= a < self.types@.len() && 0 <= b < self.types@.len() && a != b implies type_name_bytes(
            #[trigger] self.types@[a],
        ) != type_name_bytes(#[trigger] self.types@[b]) by {
            assert(type_name_bytes(prev.types@[a]) != type_name_bytes(prev.types@[b]));
        }
        assert forall|a: int, k: int|
            0 <= a < self.types@.len() && 0 <= k < type_scopes(self.types@[a]).len() implies (
            #[trigger] type_scopes(self.types@[a])[k]) < self.scopes@.len() by {
            assert(type_scopes(prev.types@[a])[k] < prev.scopes@.len());
        }
        assert forall|t: PrimitiveType| primitive_entry(#[trigger] self.types@[primitive_slot(t) as int], t) by {
            assert(primitive_entry(prev.types@[primitive_slot(t) as int], t));
        }
        assert forall|a: int|
            0 <= a < self.types@.len() implies (#[trigger] self.types@[a] matches Type::Custom(
                CustomType::CollectableGroup(g),
            ) ==> g.self_ref == a) by {
            if a != i {
                assert(self.types@[a] == prev.types@[a]);
            }
        }
    }

    /// The array type of that name, defined on first use: the primitive
    /// `array` when the name has neither length nor element type.
    pub fn get_array(&mut self, name: ArrayName) -> (r: usize)
        requires
            old(self).wf(),
        ensures
            final(self).wf(),
            final(self).spec_scopes() == old(self).spec_scopes(),
            final(self).spec_internal_path() == old(self).spec_internal_path(),
            find_type(final(self).spec_types(), array_name_text(name)) == Some(r as int),
            find_type(old(self).spec_types(), array_name_text(name)) matches Some(i) ==> r == i
                && final(self).spec_types() == old(self).spec_types(),
            find_type(old(self).spec_types(), array_name_text(name)) is None ==> r == old(self).spec_types().len()
                && final(self).spec_types().take(r as int) == old(self).spec_types()
                && final(self).spec_types().len() == r + 1
                && (final(self).spec_types()[r as int] matches Type::Custom(CustomType::Array(a))
                && is_array_for(a, name, old(self).spec_internal_path())),
    {
        let mut cached: Option<Vec<u8>> = None;
        let mut k: usize = 0;
        while k < self.array_names.len()
            invariant
                self.wf(),
                k <= self.array_names@.len(),
                cached matches Some(t) ==> t@ == array_name_text(name),
            decreases self.array_names@.len() - k,
        {
            if array_name_matches(&self.array_names[k].0, &name) {
                cached = Some(slice_to_vec(self.array_names[k].1.as_slice()));
                break;
            }
            k = k + 1;
        }
        let str_name = match cached {
            Some(t) => t,
            None => {
                let t = name.to_text();
                let key = clone_array_name(&name);
                self.array_names.push((key, slice_to_vec(t.as_slice())));
                t
            },
        };
        let ghost mid = *self;
        assert(self.wf());
        assert(mid.types@ == old(self).types@);
        assert(str_name@ == array_name_text(name));
        if let Some(i) = self.find(str_name.as_slice()) {
            return i;
        }
        let span = TokenSpan::new(self.internal_path.clone());
        let ty = match name.of_type {
            Some(n) => Some(ItemRef::new(n)),
            None => None,
        };
        let array = Array::new(TokenValue::new(str_name, span), ty, name.length);
        let count = self.types.len();
        let r = self.insert_type(CustomType::Array(array));
        proof {
            assert(self.spec_types().take(mid.types@.len() as int) =~= mid.types@);
            let n = mid.types@.len() as int;
            let t = self.spec_types()[n];
            assert(type_name_bytes(t) == array_name_text(name));
            assert(find_type(self.spec_types(), array_name_text(name)) is Some);
            let c = find_type(self.spec_types(), array_name_text(name)).unwrap();
            assert(type_name_bytes(self.types@[c]) == array_name_text(name));
            assert(c == n);
            assert(self.spec_types()[n] matches Type::Custom(CustomType::Array(a)));
            assert(array.name.spec_span().filename@ == old(self).spec_internal_path());
            assert(array.ty == match name.of_type { Some(t) => Some(ItemRef { name: t, item: None }), None => None::<ItemRef> });
            assert(self.spec_types()[n] == Type::Custom(CustomType::Array(array)));
            assert(is_array_for(array, name, old(self).spec_internal_path()));
            assert(find_type(self.spec_types(), array_name_text(name)) == Some(n));
        }
        let res = r.unwrap();
        assert(res == count);
        res
    }
}

impl Object {
    /// Defines an object type by name, with its scopes; refused when a type of
    /// that name exists.
    pub fn new(name: TokenValue<Vec<u8>>, ast: &mut Ast) -> (r: Result<usize, AstErrorKind>)
        requires
            old(ast).wf(),
        ensures
            final(ast).wf(),
            defined_fresh(*old(ast), *final(ast), BaseCustomType::Object, name, r),
    {
        ast.insert_fresh(BaseCustomType::Object, name)
    }
}

impl Collectable {
    /// Defines a collectable by name, with its scopes; refused when a type of
    /// that name exists.
    pub fn new(name: TokenValue<Vec<u8>>, ast: &mut Ast) -> (r: Result<usize, AstErrorKind>)
        requires
            old(ast).wf(),
        ensures
            final(ast).wf(),
            defined_fresh(*old(ast), *final(ast), BaseCustomType::Collectable, name, r),
    {
        ast.insert_fresh(BaseCustomType::Collectable, name)
    }
}

impl CollectableGroup {
    /// Defines a collectable group by name, with its scopes; refused when a type of
    /// that name exists.
    pub fn new(name: TokenValue<Vec<u8>>, ast: &mut Ast) -> (r: Result<usize, AstErrorKind>)
        requires
            old(ast).wf(),
        ensures
            final(ast).wf(),
            defined_fresh(*old(ast), *final(ast), BaseCustomType::CollectableGroup, name, r),
    {
        ast.insert_fresh(BaseCustomType::CollectableGroup, name)
    }
}

impl User {
    /// Defines a user type by name, with its scopes; refused when a type of
    /// that name exists.
    pub fn new(name: TokenValue<Vec<u8>>, ast: &mut Ast) -> (r: Result<usize, AstErrorKind>)
        requires
            old(ast).wf(),
        ensures
            final(ast).wf(),
            defined_fresh(*old(ast), *final(ast), BaseCustomType::User, name, r),
    {
        ast.insert_fresh(BaseCustomType::User, name)
    }
}

impl UserGroup {
    /// Defines a user group by name, with its scopes; refused when a type of
    /// that name exists.
    pub fn new(name: TokenValue<Vec<u8>>, ast: &mut Ast) -> (r: Result<usize, AstErrorKind>)
        requires
            old(ast).wf(),
        ensures
            final(ast).wf(),
            defined_fresh(*old(ast), *final(ast), BaseCustomType::UserGroup, name, r),
    {
        ast.insert_fresh(BaseCustomType::UserGroup, name)
    }
}

impl Event {
    /// Defines an event by name, with its scopes; refused when a type of
    /// that name exists.
    pub fn new(name: TokenValue<Vec<u8>>, ast: &mut Ast) -> (r: Result<usize, AstErrorKind>)
        requires
            old(ast).wf(),
        ensures
            final(ast).wf(),
            defined_fresh(*old(ast), *final(ast), BaseCustomType::Event, name, r),
    {
        ast.insert_fresh(BaseCustomType::Event, name)
    }
}

impl RemoteEvent {
    /// Defines a remote event by name, with its scopes; refused when a type of
    /// that name exists.
    pub fn new(name: TokenValue<Vec<u8>>, ast: &mut Ast) -> (r: Result<usize, AstErrorKind>)
        requires
            old(ast).wf(),
        ensures
            final(ast).wf(),
            defined_fresh(*old(ast), *final(ast), BaseCustomType::RemoteEvent, name, r),
    {
        ast.insert_fresh(BaseCustomType::RemoteEvent, name)
    }
}

impl Function {
    /// Defines a function by name, with its scopes; refused when a type of
    /// that name exists.
    pub fn new(name: TokenValue<Vec<u8>>, ast: &mut Ast) -> (r: Result<usize, AstErrorKind>)
        requires
            old(ast).wf(),
        ensures
            final(ast).wf(),
            defined_fresh(*old(ast), *final(ast), BaseCustomType::Function, name, r),
    {
        ast.insert_fresh(BaseCustomType::Function, name)
    }
}

impl RemoteFunction {
    /// Defines a remote function by name, with its scopes; refused when a type of
    /// that name exists.
    pub fn new(name: TokenValue<Vec<u8>>, ast: &mut Ast) -> (r: Result<usize, AstErrorKind>)
        requires
            old(ast).wf(),
        ensures
            final(ast).wf(),
            defined_fresh(*old(ast), *final(ast), BaseCustomType::RemoteFunction, name, r),
    {
        ast.insert_fresh(BaseCustomType::RemoteFunction, name)
    }
}

impl BaseCustomType {
    /// Defines an empty type of this kind by name. An array type cannot be
    /// defined so: it is named by its length and element type.
    pub fn insert_empty_type(&self, ast: &mut Ast, name: TokenValue<Vec<u8>>) -> (r: Result<(), AstErrorKind>)
        requires
            old(ast).wf(),
            *self != BaseCustomType::EarlyRef,
        ensures
            final(ast).wf(),
            *self == BaseCustomType::Array ==> *final(ast) == *old(ast) && r == Err::<(), AstErrorKind>(
                AstErrorKind::InvalidOperation(EMPTY_ARRAY_REASON),
            ),
            *self != BaseCustomType::Array ==> exists|res: Result<usize, AstErrorKind>|
                defined_fresh(*old(ast), *final(ast), *self, name, res) && (res is Ok <==> r is Ok)
                    && (res matches Err(e) ==> r == Err::<(), AstErrorKind>(e)),
    {
        match self {
            BaseCustomType::Array => Err(AstErrorKind::InvalidOperation(EMPTY_ARRAY_REASON)),
            _ => match ast.insert_fresh(*self, name) {
                Ok(_) => Ok(()),
                Err(e) => Err(e),
            },
        }
    }
}

/// The message when an array type is defined by name alone.
pub const EMPTY_ARRAY_REASON: &'static str = "empty custom array type is not valid - use PrimitiveType::Array";

impl EarlyRefType {
    /// A stand-in for a type of kind `real_ty` named before it is defined,
    /// with an empty scope of its own.
    pub fn new(name: TokenValue<Vec<u8>>, real_ty: BaseCustomType, ast: &mut Ast) -> (r: Self)
        requires
            old(ast).wf(),
        ensures
            final(ast).wf(),
            final(ast).spec_types() == old(ast).spec_types(),
            final(ast).spec_internal_path() == old(ast).spec_internal_path(),
            final(ast).spec_scopes().len() == old(ast).spec_scopes().len() + 1,
            final(ast).spec_scopes().take(old(ast).spec_scopes().len() as int) == old(ast).spec_scopes(),
            is_fresh_scope(final(ast).spec_scopes().last(), None, SCOPE_TYPE, name.spec_span()),
            r.name == name,
            r.real_ty == real_ty,
            r.parent is None,
            r.scope == old(ast).spec_scopes().len(),
    {
        let span = name.span().clone();
        let scope = ast.add_scope(Scope::new(ScopeKind::new(SCOPE_TYPE), span));
        proof {
            assert(ast.spec_scopes().take(old(ast).spec_scopes().len() as int) =~= old(ast).spec_scopes());
        }
        EarlyRefType { name, real_ty, parent: None, scope }
    }

    pub fn real_ty(&self) -> (r: BaseCustomType)
        ensures
            r == self.real_ty,
    {
        self.real_ty
    }

    /// The parent type, when there is one and it is of the kind `expected`;
    /// a parent of another kind is an error.
    pub fn parent(&self, ast: &Ast, expected: BaseCustomType) -> (r: Result<Option<usize>, AstErrorKind>)
        requires
            self.parent matches Some(p) ==> p < ast.spec_types().len(),
        ensures
            match self.parent {
                None => r == Ok::<Option<usize>, AstErrorKind>(None),
                Some(p) => if ast.spec_types()[p as int] matches Type::Custom(c) && custom_base(c) == expected {
                    r == Ok::<Option<usize>, AstErrorKind>(Some(p))
                } else {
                    r == Err::<Option<usize>, AstErrorKind>(AstErrorKind::TypeResolution(
                        base_type_name(expected),
                        type_name_value(ast.spec_types()[p as int]),
                    )) || (r matches Err(AstErrorKind::TypeResolution(w, n)) && w == base_type_name(expected)
                        && name_bytes(n) == type_name_bytes(ast.spec_types()[p as int])
                        && n.spec_span() == type_name_value(ast.spec_types()[p as int]).spec_span())
                },
            },
    {
        match self.parent {
            None => Ok(None),
            Some(p) => {
                if let Some(c) = ast.type_at(p).as_custom() {
                    if c.base_type() == expected {
                        return Ok(Some(p));
                    }
                }
                Err(AstErrorKind::TypeResolution(expected.as_str(), ast.type_at(p).name().clone_name()))
            },
        }
    }
}

/// The super type of a type that can have one.
pub open spec fn super_type_of(t: Type) -> Option<usize> {
    match t {
        Type::Custom(CustomType::Collectable(c)) => c.parent,
        Type::Custom(CustomType::CollectableGroup(g)) => g.parent,
        Type::Custom(CustomType::Object(o)) => o.super_type,
        _ => None,
    }
}

/// The links of a type lead to types of the program of the right kind: its
/// super type exists and, for a group, each sub group it has found is a
/// group and each item it has found is a collectable.
pub open spec fn links_in(types: Seq<Type>, t: Type) -> bool {
    &&& (super_type_of(t) matches Some(st) ==> st < types.len())
    &&& (t matches Type::Custom(CustomType::CollectableGroup(g)) ==> group_refs_in(types, g))
}

/// Each reference of a group that was found leads to a type of the right kind.
pub open spec fn group_refs_in(types: Seq<Type>, g: CollectableGroup) -> bool {
    &&& forall|k: int|
        0 <= k < g.sub_groups@.len() ==> ((#[trigger] g.sub_groups@[k]).item matches Some(j) ==> j
            < types.len() && types[j as int] matches Type::Custom(CustomType::CollectableGroup(_)))
    &&& forall|k: int|
        0 <= k < g.collectables@.len() ==> ((#[trigger] g.collectables@[k]).item matches Some(j) ==> j
            < types.len() && types[j as int] matches Type::Custom(CustomType::Collectable(_)))
}

/// The links of every type are in order.
pub open spec fn links_valid(types: Seq<Type>) -> bool {
    forall|i: int| 0 <= i < types.len() ==> links_in(types, #[trigger] types[i])
}

/// Whether a group lists itself among its sub groups by neither its index
/// nor its name: resolving such a group would take it as its own super
/// type while it is being changed.
pub open spec fn not_own_sub(types: Seq<Type>, i: int) -> bool {
    own_sub_free(types[i], i)
}

/// Whether type `t`, stored at index `i`, is no group that lists itself
/// among its sub groups by that index or by its name.
pub open spec fn own_sub_free(t: Type, i: int) -> bool {
    t matches Type::Custom(CustomType::CollectableGroup(g)) ==> forall|k: int|
        0 <= k < g.sub_groups@.len() ==> ((#[trigger] g.sub_groups@[k]).item != Some(i as usize) && (
        g.sub_groups@[k].item is None ==> name_bytes(g.sub_groups@[k].name) != name_bytes(g.name)))
}

/// Whether a group to be stored at index `i` lists itself among its sub
/// groups by neither that index nor its name.
pub open spec fn custom_not_own_sub(ty: CustomType, i: int) -> bool {
    own_sub_free(Type::Custom(ty), i)
}

/// Links stay in order while types are added and kept of their kinds.
pub proof fn lemma_links_grow(types: Seq<Type>, more: Seq<Type>, t: Type)
    requires
        links_in(types, t),
        types.len() <= more.len(),
        forall|i: int| 0 <= i < types.len() ==> same_kind(#[trigger] types[i], more[i]),
    ensures
        links_in(more, t),
{
    if let Type::Custom(CustomType::CollectableGroup(g)) = t {
        assert forall|k: int| 0 <= k < g.sub_groups@.len() implies ((#[trigger] g.sub_groups@[k]).item matches Some(j) ==> j
            < more.len() && more[j as int] matches Type::Custom(CustomType::CollectableGroup(_))) by {
            if let Some(j) = g.sub_groups@[k].item {
                assert(same_kind(types[j as int], more[j as int]));
            }
        }
        assert forall|k: int| 0 <= k < g.collectables@.len() implies ((#[trigger] g.collectables@[k]).item matches Some(j) ==> j
            < more.len() && more[j as int] matches Type::Custom(CustomType::Collectable(_))) by {
            if let Some(j) = g.collectables@[k].item {
                assert(same_kind(types[j as int], more[j as int]));
            }
        }
    }
}

/// Links of every type stay in order while types are added and kept of
/// their kinds, when the types that change keep their links in order.
pub proof fn lemma_links_valid_grow(types: Seq<Type>, more: Seq<Type>)
    requires
        links_valid(types),
        types.len() <= more.len(),
        forall|i: int| 0 <= i < types.len() ==> same_kind(#[trigger] types[i], more[i]),
        forall|i: int| 0 <= i < more.len() && (i >= types.len() || more[i] != types[i]) ==> links_in(more, #[trigger] more[i]),
    ensures
        links_valid(more),
{
    assert forall|i: int| 0 <= i < more.len() implies links_in(more, #[trigger] more[i]) by {
        if i < types.len() && more[i] == types[i] {
            assert(links_in(types, types[i]));
            lemma_links_grow(types, more, types[i]);
        }
    }
}

/// The type `t` with its super type set.
pub open spec fn with_super_type(t: Type, s: usize) -> Type {
    match t {
        Type::Custom(CustomType::Collectable(c)) => Type::Custom(
            CustomType::Collectable(Collectable { parent: Some(s), ..c }),
        ),
        Type::Custom(CustomType::CollectableGroup(g)) => Type::Custom(
            CustomType::CollectableGroup(CollectableGroup { parent: Some(s), ..g }),
        ),
        Type::Custom(CustomType::Object(o)) => Type::Custom(
            CustomType::Object(Object { super_type: Some(s), ..o }),
        ),
        _ => t,
    }
}

impl Ast {
    /// Gives a collectable, a group or an object its super type. Setting the
    /// one it has again is no change; another is refused.
    pub fn set_super_type(&mut self, sub: usize, sup: usize) -> (r: Result<(), AstErrorKind>)
        requires
            old(self).wf(),
            sub < old(self).spec_types().len(),
            sup < old(self).spec_types().len(),
            old(self).spec_types()[sub as int] matches Type::Custom(c) && (c is Collectable
                || c is CollectableGroup || c is Object),
            super_type_of(old(self).spec_types()[sub as int]) matches Some(st) ==> st < old(self).spec_types().len(),
        ensures
            final(self).wf(),
            final(self).spec_scopes() == old(self).spec_scopes(),
            final(self).spec_internal_path() == old(self).spec_internal_path(),
            ({
                let types = old(self).spec_types();
                match super_type_of(types[sub as int]) {
                    Some(st) => final(self).spec_types() == types && if type_name_bytes(types[st as int])
                        == type_name_bytes(types[sup as int]) {
                        r is Ok
                    } else {
                        r matches Err(AstErrorKind::ConflictingSuperType(a, b, c)) && a@
                            == type_name_bytes(types[sub as int]) && b@ == type_name_bytes(
                            types[st as int],
                        ) && name_bytes(c) == type_name_bytes(types[sup as int]) && c.spec_span()
                            == type_name_value(types[sup as int]).spec_span()
                    },
                    None => r is Ok && final(self).spec_types() == types.update(
                        sub as int,
                        with_super_type(types[sub as int], sup),
                    ),
                }
            }),
    {
        let current = match &self.types[sub] {
            Type::Custom(CustomType::Collectable(c)) => c.super_type(),
            Type::Custom(CustomType::CollectableGroup(g)) => g.super_type(),
            Type::Custom(CustomType::Object(o)) => o.super_type(),
            _ => None,
        };
        if let Some(st) = current {
            if bytes_eq(self.types[st].name().value().as_slice(), self.types[sup].name().value().as_slice()) {
                return Ok(());
            }
            let own = slice_to_vec(self.types[sub].name().value().as_slice());
            let theirs = slice_to_vec(self.types[st].name().value().as_slice());
            let wanted = self.types[sup].name().clone_name();
            return Err(AstErrorKind::ConflictingSuperType(own, theirs, wanted));
        }
        match &mut self.types[sub] {
            Type::Custom(CustomType::Collectable(c)) => c.assign_super_type_internal(sup),
            Type::Custom(CustomType::CollectableGroup(g)) => g.assign_super_type_internal(sup),
            Type::Custom(CustomType::Object(o)) => o.assign_super_type_internal(sup),
            _ => {},
        }
        proof {
            assert(not_own_sub(old(self).types@, sub as int));
            self.lemma_wf_after_update(*old(self), sub as int);
        }
        Ok(())
    }
}

/// Whether two types are of the same kind: the same primitive, or custom
/// types of the same base.
pub open spec fn same_kind(t0: Type, t1: Type) -> bool {
    match (t0, t1) {
        (Type::Primitive(p, _, _), Type::Primitive(q, _, _)) => p == q,
        (Type::Custom(c0), Type::Custom(c1)) => custom_base(c0) == custom_base(c1),
        _ => false,
    }
}

/// The program `a1` holds every type of `a0`, of the same kind and at the
/// same index, and every scope, and may hold more.
pub open spec fn ast_grew(a0: Ast, a1: Ast) -> bool {
    &&& a1.spec_types().len() >= a0.spec_types().len()
    &&& a1.spec_scopes().len() >= a0.spec_scopes().len()
    &&& a1.spec_internal_path() == a0.spec_internal_path()
    &&& forall|i: int|
        0 <= i < a0.spec_types().len() ==> same_kind(
            #[trigger] a0.spec_types()[i],
            a1.spec_types()[i],
        )
}

pub proof fn lemma_ast_grew_refl(a: Ast)
    ensures
        ast_grew(a, a),
{
    assert forall|i: int| 0 <= i < a.spec_types().len() implies same_kind(#[trigger] a.spec_types()[i], a.spec_types()[i]) by {
        match a.spec_types()[i] {
            Type::Primitive(..) => {},
            Type::Custom(..) => {},
        }
    }
}

pub proof fn lemma_ast_grew_trans(a: Ast, b: Ast, c: Ast)
    requires
        ast_grew(a, b),
        ast_grew(b, c),
    ensures
        ast_grew(a, c),
{
    assert forall|i: int| 0 <= i < a.spec_types().len() implies same_kind(#[trigger] a.spec_types()[i], c.spec_types()[i]) by {
        assert(same_kind(a.spec_types()[i], b.spec_types()[i]));
        assert(same_kind(b.spec_types()[i], c.spec_types()[i]));
    }
}

/// Adding types after the old ones, and scopes, is growing.
pub proof fn lemma_ast_grew_append(a: Ast, b: Ast)
    requires
        b.spec_types().len() >= a.spec_types().len(),
        b.spec_types().take(a.spec_types().len() as int) == a.spec_types(),
        b.spec_scopes().len() >= a.spec_scopes().len(),
        b.spec_internal_path() == a.spec_internal_path(),
    ensures
        ast_grew(a, b),
{
    assert forall|i: int| 0 <= i < a.spec_types().len() implies same_kind(#[trigger] a.spec_types()[i], b.spec_types()[i]) by {
        assert(b.spec_types().take(a.spec_types().len() as int)[i] == b.spec_types()[i]);
        match a.spec_types()[i] {
            Type::Primitive(..) => {},
            Type::Custom(..) => {},
        }
    }
}

/// A type is of its own kind.
pub proof fn lemma_same_kind_refl(t: Type)
    ensures
        same_kind(t, t),
{
    match t {
        Type::Primitive(..) => {},
        Type::Custom(..) => {},
    }
}

/// Changing one type into one of its kind is growing.
pub proof fn lemma_ast_grew_update(a: Ast, b: Ast, i: int, t: Type)
    requires
        0 <= i < a.spec_types().len(),
        b.spec_types() == a.spec_types().update(i, t),
        same_kind(a.spec_types()[i], t),
        b.spec_scopes().len() >= a.spec_scopes().len(),
        b.spec_internal_path() == a.spec_internal_path(),
    ensures
        ast_grew(a, b),
{
    assert forall|j: int| 0 <= j < a.spec_types().len() implies same_kind(#[trigger] a.spec_types()[j], b.spec_types()[j]) by {
        if j != i {
            match a.spec_types()[j] {
                Type::Primitive(..) => {},
                Type::Custom(..) => {},
            }
        }
    }
}

impl Ast {
    /// What the invariant says of the program's first types and scopes.
    pub proof fn lemma_wf_basics(&self)
        requires
            self.wf(),
        ensures
            self.spec_types().len() >= 10,
            self.spec_scopes().len() >= 1,
            self.spec_scopes()[GLOBAL_SCOPE as int].parent is None,
            scopes_wf(self.spec_scopes()),
            inits_in(self.spec_scopes()),
            forall|t: PrimitiveType| primitive_entry(#[trigger] self.spec_types()[primitive_slot(t) as int], t),
            forall|i: int, k: int|
                0 <= i < self.spec_types().len() && 0 <= k < type_scopes(self.spec_types()[i]).len() ==> (
                #[trigger] type_scopes(self.spec_types()[i])[k]) < self.spec_scopes().len(),
    {
    }
}

/// A type added under a name no type had is what a lookup of that name
/// finds.
pub proof fn lemma_insert_type_then_find(old: Seq<Type>, t: Type)
    requires
        type_names_unique(old),
        find_type(old, type_name_bytes(t)) is None,
    ensures
        find_type(old.push(t), type_name_bytes(t)) == Some(old.len() as int),
        type_names_unique(old.push(t)),
{
    let new = old.push(t);
    let name = type_name_bytes(t);
    assert(type_name_bytes(new[old.len() as int]) == name);
    let k = find_type(new, name).unwrap();
    if k != old.len() {
        assert(new[k] == old[k]);
        assert(type_name_bytes(old[k]) == name);
        assert(find_type(old, name) is Some);
    }
    assert forall|i: int, j: int| 0 <= i < new.len() && 0 <= j < new.len() && i != j implies type_name_bytes(
        #[trigger] new[i],
    ) != type_name_bytes(#[trigger] new[j]) by {
        if i == old.len() {
            assert(type_name_bytes(old[j]) != name);
        } else if j == old.len() {
            assert(type_name_bytes(old[i]) != name);
        }
    }
}

/// In a well formed program each primitive type is found by its name, at
/// its place among the first types.
pub proof fn lemma_primitive_found(a: Ast, t: PrimitiveType)
    requires
        a.wf(),
    ensures
        find_type(a.spec_types(), primitive_name(t)) == Some(primitive_slot(t) as int),
{
    a.lemma_wf_basics();
    let i = primitive_slot(t) as int;
    assert(primitive_entry(a.spec_types()[i], t));
    assert(type_name_bytes(a.spec_types()[i]) == primitive_name(t));
    let k = find_type(a.spec_types(), primitive_name(t)).unwrap();
    assert(type_name_bytes(a.spec_types()[k]) == primitive_name(t));
    if k != i {
        assert(type_names_unique(a.spec_types()));
    }
}


/// The group a type is, when it is one.
pub open spec fn group_of(t: Type) -> CollectableGroup {
    match t {
        Type::Custom(CustomType::CollectableGroup(g)) => g,
        _ => arbitrary(),
    }
}

/// The references of a group that `groups` picks: its sub groups, or else
/// its collectables.
pub open spec fn group_list(g: CollectableGroup, groups: bool) -> Seq<ItemRefMut> {
    if groups {
        g.sub_groups@
    } else {
        g.collectables@
    }
}

/// The kind of type the references that `groups` picks lead to.
pub open spec fn list_base(groups: bool) -> BaseCustomType {
    if groups {
        BaseCustomType::CollectableGroup
    } else {
        BaseCustomType::Collectable
    }
}

/// The type a reference leads to: the one it has found, or else the type of
/// its name when that is of the kind wanted.
pub open spec fn ref_target(types: Seq<Type>, r: ItemRefMut, want: BaseCustomType) -> Option<int> {
    match r.item {
        Some(j) => Some(j as int),
        None => match find_type(types, name_bytes(r.name)) {
            Some(i) => if types[i] matches Type::Custom(c) && custom_base(c) == want {
                Some(i)
            } else {
                None
            },
            None => None,
        },
    }
}

/// Whether type `j` can take type `t` as its super type: it has none yet,
/// or one of that name.
pub open spec fn takes_super(types: Seq<Type>, j: int, t: int) -> bool {
    super_type_of(types[j]) matches Some(st) ==> type_name_bytes(types[st as int]) == type_name_bytes(
        types[t],
    )
}

/// Whether each reference leads to a type that can take `t` as its super
/// type.
pub open spec fn refs_resolve(types: Seq<Type>, refs: Seq<ItemRefMut>, want: BaseCustomType, t: int) -> bool {
    forall|k: int|
        0 <= k < refs.len() ==> (ref_target(types, #[trigger] refs[k], want) matches Some(j) && takes_super(
            types,
            j,
            t,
        ))
}

/// Whether the references `now` are the references `was` resolved in
/// `types`, each to a type whose super type in `after` is named as `t` is.
pub open spec fn refs_resolved(
    types: Seq<Type>,
    after: Seq<Type>,
    was: Seq<ItemRefMut>,
    now: Seq<ItemRefMut>,
    want: BaseCustomType,
    t: int,
) -> bool {
    &&& now.len() == was.len()
    &&& forall|k: int|
        0 <= k < was.len() ==> (#[trigger] now[k]).name == was[k].name && (ref_target(types, was[k], want) matches Some(j)
            && now[k].item == Some(j as usize) && (super_type_of(after[j]) matches Some(st) && type_name_bytes(
            after[st as int],
        ) == type_name_bytes(after[t])))
}

/// The types `b` are the types `a` with the same names, kinds and scopes.
pub open spec fn types_kept(a: Seq<Type>, b: Seq<Type>) -> bool {
    &&& a.len() == b.len()
    &&& forall|j: int|
        0 <= j < a.len() ==> same_kind(#[trigger] a[j], b[j]) && type_name_bytes(b[j]) == type_name_bytes(
            a[j],
        ) && type_scopes(b[j]) == type_scopes(a[j])
}

/// Types other than `t` either stay or take `t` as the super type they had
/// not.
pub open spec fn others_kept(a: Seq<Type>, b: Seq<Type>, t: int) -> bool {
    forall|j: int|
        0 <= j < a.len() && j != t ==> #[trigger] b[j] == a[j] || (super_type_of(a[j]) is None && b[j]
            == with_super_type(a[j], t as usize))
}

/// The group `h` is the group `g` but for the references that `groups`
/// picks and a super type `t` where it had none.
pub open spec fn group_kept(g: CollectableGroup, h: CollectableGroup, groups: bool, t: int) -> bool {
    &&& h == CollectableGroup { sub_groups: h.sub_groups, collectables: h.collectables, parent: h.parent, ..g }
    &&& (groups ==> h.collectables == g.collectables)
    &&& (!groups ==> h.sub_groups == g.sub_groups)
    &&& (h.parent == g.parent || (g.parent is None && h.parent == Some(t as usize)))
}

impl Ast {
    /// The type that reference `k` of group `t` leads to; a reference that
    /// leads nowhere is an error.
    fn ref_lookup(&self, t: usize, groups: bool, k: usize) -> (r: Result<usize, AstErrorKind>)
        requires
            self.wf(),
            t < self.spec_types().len(),
            self.spec_types()[t as int] matches Type::Custom(CustomType::CollectableGroup(g)) && k < group_list(
                g,
                groups,
            ).len(),
        ensures
            ({
                let rf = group_list(group_of(self.spec_types()[t as int]), groups)[k as int];
                match r {
                    Ok(j) => ref_target(self.spec_types(), rf, list_base(groups)) == Some(j as int) && j
                        < self.spec_types().len(),
                    Err(e) => ref_target(self.spec_types(), rf, list_base(groups)) is None && (e matches AstErrorKind::NotDefined(n, sp, w)
                        && n@ == name_bytes(rf.name) && sp == rf.name.spec_span() && w == "item"),
                }
            }),
    {
        let rf = match &self.types[t] {
            Type::Custom(CustomType::CollectableGroup(g)) => if groups {
                &g.sub_groups[k]
            } else {
                &g.collectables[k]
            },
            _ => vstd::pervasive::unreached(),
        };
        proof {
            assert(group_refs_in(self.types@, group_of(self.types@[t as int])));
            assert(links_in(self.types@, self.types@[t as int]));
        }
        if let Some(j) = rf.item {
            return Ok(j);
        }
        match find_type_index(&self.types, rf.name.value().as_slice()) {
            Some(i) => {
                let fits = match &self.types[i] {
                    Type::Custom(CustomType::CollectableGroup(_)) => groups,
                    Type::Custom(CustomType::Collectable(_)) => !groups,
                    _ => false,
                };
                if fits {
                    Ok(i)
                } else {
                    Err(AstErrorKind::NotDefined(slice_to_vec(rf.name.value().as_slice()), rf.name.span().clone(), "item"))
                }
            },
            None => Err(AstErrorKind::NotDefined(slice_to_vec(rf.name.value().as_slice()), rf.name.span().clone(), "item")),
        }
    }
}


/// Setting a super type keeps a type's name, kind and scopes.
proof fn lemma_with_super_kept(t: Type, s: usize)
    ensures
        type_name_bytes(with_super_type(t, s)) == type_name_bytes(t),
        type_scopes(with_super_type(t, s)) == type_scopes(t),
        same_kind(t, with_super_type(t, s)),
        (t matches Type::Custom(c) && (c is Collectable || c is CollectableGroup || c is Object))
            ==> super_type_of(with_super_type(t, s)) == Some(s),
        !(t matches Type::Custom(c) && (c is Collectable || c is CollectableGroup || c is Object))
            ==> with_super_type(t, s) == t,
{
    lemma_same_kind_refl(t);
}

/// References lead to the same types while names and kinds stay.
proof fn lemma_ref_target_kept(a: Seq<Type>, b: Seq<Type>, r: ItemRefMut, want: BaseCustomType)
    requires
        types_kept(a, b),
        type_names_unique(a),
        type_names_unique(b),
    ensures
        ref_target(a, r, want) == ref_target(b, r, want),
{
    let n = name_bytes(r.name);
    if let Some(ia) = find_type(a, n) {
        assert(type_name_bytes(a[ia]) == n);
        assert(type_name_bytes(b[ia]) == n);
        let ib = find_type(b, n).unwrap();
        assert(type_name_bytes(b[ib]) == n);
        assert(type_name_bytes(a[ib]) == n);
        assert(ia == ib);
        assert(same_kind(a[ia], b[ia]));
    } else {
        if let Some(ib) = find_type(b, n) {
            assert(type_name_bytes(b[ib]) == n);
            assert(type_name_bytes(a[ib]) == n);
        }
    }
}

/// Under the changes that resolving a group makes, super types only appear
/// where there were none, and a type takes the group as before.
proof fn lemma_super_kept(a: Seq<Type>, b: Seq<Type>, t: int, j: int)
    requires
        types_kept(a, b),
        others_kept(a, b, t),
        links_valid(a),
        0 <= t < a.len(),
        0 <= j < a.len(),
        t <= usize::MAX,
        a[t] matches Type::Custom(CustomType::CollectableGroup(_)),
        b[t] matches Type::Custom(CustomType::CollectableGroup(h)) && (h.parent == group_of(a[t]).parent
            || (group_of(a[t]).parent is None && h.parent == Some(t as usize))),
    ensures
        super_type_of(b[j]) == super_type_of(a[j]) || (super_type_of(a[j]) is None && super_type_of(b[j])
            == Some(t as usize)),
        takes_super(a, j, t) <==> takes_super(b, j, t),
{
    assert(links_in(a, a[j]));
    assert(type_name_bytes(b[t]) == type_name_bytes(a[t]));
    if j != t {
        lemma_with_super_kept(a[j], t as usize);
        if b[j] != a[j] {
            assert(super_type_of(a[j]) is None);
        }
    }
    match super_type_of(a[j]) {
        Some(st) => {
            assert(super_type_of(b[j]) == Some(st));
            assert(type_name_bytes(b[st as int]) == type_name_bytes(a[st as int]));
        },
        None => {},
    }
}

/// The references of group `t` that `groups` picks.
pub open spec fn list_of(types: Seq<Type>, t: int, groups: bool) -> Seq<ItemRefMut> {
    group_list(group_of(types[t]), groups)
}

/// Whether one of the references leads to type `j`.
pub open spec fn list_claims(types: Seq<Type>, refs: Seq<ItemRefMut>, want: BaseCustomType, j: int) -> bool {
    exists|k: int| 0 <= k < refs.len() && ref_target(types, #[trigger] refs[k], want) == Some(j)
}

/// Whether the types whose super type changed between `t0` and `now` are
/// among those that the first `k` references lead to.
pub open spec fn supers_from(t0: Seq<Type>, now: Seq<Type>, refs: Seq<ItemRefMut>, want: BaseCustomType, k: int) -> bool {
    forall|x: int|
        0 <= x < t0.len() && super_type_of(#[trigger] now[x]) != super_type_of(t0[x]) ==> list_claims(
            t0,
            refs.take(k),
            want,
            x,
        )
}

/// The first `k` references `refs` lead to types that can take `t` as
/// their super type.
pub open spec fn prefix_resolves(types: Seq<Type>, refs: Seq<ItemRefMut>, want: BaseCustomType, t: int, k: int) -> bool {
    forall|m: int|
        0 <= m < k ==> (ref_target(types, #[trigger] refs[m], want) matches Some(j) && takes_super(types, j, t))
}

/// The first `k` references of group `t` in `now` are the references
/// `refs` resolved in `types`, each to a type whose super type is named as
/// the group is.
pub open spec fn prefix_resolved(
    types: Seq<Type>,
    now: Seq<Type>,
    refs: Seq<ItemRefMut>,
    want: BaseCustomType,
    t: int,
    groups: bool,
    k: int,
) -> bool {
    forall|m: int|
        0 <= m < k ==> (#[trigger] list_of(now, t, groups)[m]).name == refs[m].name && (ref_target(types, refs[m], want) matches Some(jm)
            && list_of(now, t, groups)[m].item == Some(jm as usize) && (super_type_of(now[jm]) matches Some(st)
            && type_name_bytes(now[st as int]) == type_name_bytes(now[t])))
}

/// How the types stand while the references of group `t` are resolved.
pub open spec fn list_progress(
    t0: Seq<Type>,
    now: Seq<Type>,
    t: int,
    groups: bool,
    k: int,
) -> bool {
    let refs = list_of(t0, t, groups);
    let want = list_base(groups);
    &&& 0 <= t < t0.len()
    &&& 0 <= k <= refs.len()
    &&& t0[t] matches Type::Custom(CustomType::CollectableGroup(_))
    &&& types_kept(t0, now)
    &&& others_kept(t0, now, t)
    &&& now[t] matches Type::Custom(CustomType::CollectableGroup(h)) && group_kept(group_of(t0[t]), h, groups, t)
    &&& list_of(now, t, groups).len() == refs.len()
    &&& forall|m: int| k <= m < refs.len() ==> #[trigger] list_of(now, t, groups)[m] == refs[m]
    &&& prefix_resolves(t0, refs, want, t, k)
    &&& prefix_resolved(t0, now, refs, want, t, groups, k)
    &&& supers_from(t0, now, refs, want, k)
}

/// Recording in group `t` that reference `k` leads to type `j` keeps the
/// progress.
proof fn lemma_list_record(t0: Seq<Type>, cur: Seq<Type>, mid: Seq<Type>, t: int, groups: bool, k: int, j: int)
    requires
        links_valid(t0),
        type_names_unique(t0),
        t <= usize::MAX,
        0 <= j <= usize::MAX,
        list_progress(t0, cur, t, groups, k),
        k < list_of(t0, t, groups).len(),
        ref_target(t0, list_of(t0, t, groups)[k], list_base(groups)) == Some(j),
        mid.len() == cur.len(),
        forall|i: int| 0 <= i < cur.len() && i != t ==> mid[i] == cur[i],
        mid[t] == Type::Custom(
            CustomType::CollectableGroup(
                if groups {
                    CollectableGroup {
                        sub_groups: group_of(mid[t]).sub_groups,
                        ..group_of(cur[t])
                    }
                } else {
                    CollectableGroup {
                        collectables: group_of(mid[t]).collectables,
                        ..group_of(cur[t])
                    }
                },
            ),
        ),
        list_of(mid, t, groups) == list_of(cur, t, groups).update(
            k,
            ItemRefMut { item: Some(j as usize), ..list_of(cur, t, groups)[k] },
        ),
    ensures
        types_kept(t0, mid),
        others_kept(t0, mid, t),
        mid[t] matches Type::Custom(CustomType::CollectableGroup(h)) && group_kept(group_of(t0[t]), h, groups, t),
        list_of(mid, t, groups).len() == list_of(t0, t, groups).len(),
        forall|m: int| k < m < list_of(t0, t, groups).len() ==> #[trigger] list_of(mid, t, groups)[m] == list_of(t0, t, groups)[m],
        prefix_resolves(t0, list_of(t0, t, groups), list_base(groups), t, k),
        prefix_resolved(t0, mid, list_of(t0, t, groups), list_base(groups), t, groups, k),
        list_of(mid, t, groups)[k].name == list_of(t0, t, groups)[k].name,
        list_of(mid, t, groups)[k].item == Some(j as usize),
        supers_from(t0, mid, list_of(t0, t, groups), list_base(groups), k),
{
    let refs = list_of(t0, t, groups);
    assert forall|x: int| 0 <= x < t0.len() && super_type_of(#[trigger] mid[x]) != super_type_of(t0[x]) implies list_claims(
        t0, refs.take(k), list_base(groups), x) by {
        if x != t {
            assert(mid[x] == cur[x]);
        }
    }
    let want = list_base(groups);
    assert forall|i: int| 0 <= i < t0.len() implies same_kind(#[trigger] t0[i], mid[i])
        && type_name_bytes(mid[i]) == type_name_bytes(t0[i]) && type_scopes(mid[i]) == type_scopes(t0[i]) by {
        assert(same_kind(t0[i], cur[i]));
    }
    assert forall|i: int| 0 <= i < t0.len() && i != t implies #[trigger] mid[i] == t0[i] || (super_type_of(t0[i]) is None
        && mid[i] == with_super_type(t0[i], t as usize)) by {
        assert(mid[i] == cur[i]);
    }
    assert forall|m: int|
        0 <= m < k implies (#[trigger] list_of(mid, t, groups)[m]).name == refs[m].name && (ref_target(t0, refs[m], want) matches Some(jm)
            && list_of(mid, t, groups)[m].item == Some(jm as usize) && (super_type_of(mid[jm]) matches Some(st)
            && type_name_bytes(mid[st as int]) == type_name_bytes(mid[t]))) by {
        assert(list_of(mid, t, groups)[m] == list_of(cur, t, groups)[m]);
        let jm = ref_target(t0, refs[m], want).unwrap();
        assert(super_type_of(mid[jm]) == super_type_of(cur[jm]));
        let st = super_type_of(cur[jm]).unwrap();
        assert(type_name_bytes(mid[st as int]) == type_name_bytes(cur[st as int]));
    }
    assert forall|m: int| k < m < refs.len() implies #[trigger] list_of(mid, t, groups)[m] == refs[m] by {
        assert(list_of(mid, t, groups)[m] == list_of(cur, t, groups)[m]);
    }
}

/// Once type `j` took group `t` as its super type, or already had one of
/// its name, reference `k` is resolved.
proof fn lemma_list_super(t0: Seq<Type>, mid: Seq<Type>, now: Seq<Type>, t: int, groups: bool, k: int, j: int)
    requires
        links_valid(t0),
        links_valid(mid),
        type_names_unique(t0),
        0 <= t < t0.len(),
        t <= usize::MAX,
        j <= usize::MAX,
        0 <= k < list_of(t0, t, groups).len(),
        t0[t] matches Type::Custom(CustomType::CollectableGroup(_)),
        types_kept(t0, mid),
        others_kept(t0, mid, t),
        mid[t] matches Type::Custom(CustomType::CollectableGroup(h)) && group_kept(group_of(t0[t]), h, groups, t),
        list_of(mid, t, groups).len() == list_of(t0, t, groups).len(),
        forall|m: int| k < m < list_of(t0, t, groups).len() ==> #[trigger] list_of(mid, t, groups)[m] == list_of(t0, t, groups)[m],
        prefix_resolves(t0, list_of(t0, t, groups), list_base(groups), t, k),
        prefix_resolved(t0, mid, list_of(t0, t, groups), list_base(groups), t, groups, k),
        list_of(mid, t, groups)[k].name == list_of(t0, t, groups)[k].name,
        list_of(mid, t, groups)[k].item == Some(j as usize),
        supers_from(t0, mid, list_of(t0, t, groups), list_base(groups), k),
        ref_target(t0, list_of(t0, t, groups)[k], list_base(groups)) == Some(j),
        0 <= j < t0.len(),
        mid[j] matches Type::Custom(c) && (c is Collectable || c is CollectableGroup),
        takes_super(mid, j, t),
        match super_type_of(mid[j]) {
            Some(_) => now == mid,
            None => now == mid.update(j, with_super_type(mid[j], t as usize)),
        },
    ensures
        list_progress(t0, now, t, groups, k + 1),
{
    let refs = list_of(t0, t, groups);
    let want = list_base(groups);
    lemma_super_kept(t0, mid, t, j);
    lemma_with_super_kept(mid[j], t as usize);
    lemma_with_super_kept(t0[j], t as usize);
    assert forall|i: int| 0 <= i < t0.len() implies same_kind(#[trigger] t0[i], now[i])
        && type_name_bytes(now[i]) == type_name_bytes(t0[i]) && type_scopes(now[i]) == type_scopes(t0[i]) by {
        assert(same_kind(t0[i], mid[i]));
    }
    assert forall|i: int| 0 <= i < t0.len() && i != t implies #[trigger] now[i] == t0[i] || (super_type_of(t0[i]) is None
        && now[i] == with_super_type(t0[i], t as usize)) by {
        if i == j {
            if mid[j] != t0[j] {
                assert(super_type_of(mid[j]) == Some(t as usize));
            }
        }
    }
    assert forall|m: int| 0 <= m < refs.len() implies #[trigger] list_of(now, t, groups)[m] == list_of(mid, t, groups)[m] by {}
    assert forall|m: int|
        0 <= m < k + 1 implies (#[trigger] list_of(now, t, groups)[m]).name == refs[m].name && (ref_target(t0, refs[m], want) matches Some(jm)
            && list_of(now, t, groups)[m].item == Some(jm as usize) && (super_type_of(now[jm]) matches Some(st)
            && type_name_bytes(now[st as int]) == type_name_bytes(now[t]))) by {
        assert(list_of(now, t, groups)[m] == list_of(mid, t, groups)[m]);
        let jm = ref_target(t0, refs[m], want).unwrap();
        if m < k {
            let st = super_type_of(mid[jm]).unwrap();
            assert(super_type_of(now[jm]) == Some(st));
            assert(type_name_bytes(now[st as int]) == type_name_bytes(mid[st as int]));
        } else {
            if let Some(st) = super_type_of(mid[j]) {
                assert(links_in(mid, mid[j]));
            }
        }
    }
    assert forall|m: int| k + 1 <= m < refs.len() implies #[trigger] list_of(now, t, groups)[m] == refs[m] by {
        assert(list_of(now, t, groups)[m] == list_of(mid, t, groups)[m]);
    }
    assert forall|x: int| 0 <= x < t0.len() && super_type_of(#[trigger] now[x]) != super_type_of(t0[x]) implies list_claims(
        t0, refs.take(k + 1), want, x) by {
        assert(refs.take(k + 1)[k] == refs[k]);
        if super_type_of(mid[x]) != super_type_of(t0[x]) {
            let m = choose|m: int| 0 <= m < refs.take(k).len() && ref_target(t0, #[trigger] refs.take(k)[m], want) == Some(x);
            assert(refs.take(k + 1)[m] == refs.take(k)[m]);
        } else {
            assert(x == j);
        }
    }
}

impl Ast {
    /// Resolves the references of group `t` that `groups` picks, in order:
    /// each is looked up, and the type it leads to takes the group as its
    /// super type.
    fn resolve_group_list(&mut self, t: usize, groups: bool) -> (r: Result<(), AstErrorKind>)
        requires
            old(self).wf(),
            t < old(self).spec_types().len(),
            old(self).spec_types()[t as int] matches Type::Custom(CustomType::CollectableGroup(_)),
        ensures
            final(self).wf(),
            final(self).spec_scopes() == old(self).spec_scopes(),
            final(self).spec_internal_path() == old(self).spec_internal_path(),
            types_kept(old(self).spec_types(), final(self).spec_types()),
            others_kept(old(self).spec_types(), final(self).spec_types(), t as int),
            final(self).spec_types()[t as int] matches Type::Custom(CustomType::CollectableGroup(h))
                && group_kept(group_of(old(self).spec_types()[t as int]), h, groups, t as int),
            r is Ok <==> refs_resolve(
                old(self).spec_types(),
                list_of(old(self).spec_types(), t as int, groups),
                list_base(groups),
                t as int,
            ),
            r is Ok ==> refs_resolved(
                old(self).spec_types(),
                final(self).spec_types(),
                list_of(old(self).spec_types(), t as int, groups),
                list_of(final(self).spec_types(), t as int, groups),
                list_base(groups),
                t as int,
            ),
            forall|x: int|
                0 <= x < old(self).spec_types().len() && super_type_of(#[trigger] final(self).spec_types()[x])
                    != super_type_of(old(self).spec_types()[x]) ==> list_claims(
                    old(self).spec_types(),
                    list_of(old(self).spec_types(), t as int, groups),
                    list_base(groups),
                    x,
                ),
            r matches Err(e) ==> ((e matches AstErrorKind::NotDefined(_, _, w) && w == "item")
                || e is ConflictingSuperType),
    {
        let ghost t0 = old(self).spec_types();
        let ghost refs0 = list_of(t0, t as int, groups);
        let ghost want = list_base(groups);
        let n = match &self.types[t] {
            Type::Custom(CustomType::CollectableGroup(g)) => if groups {
                g.sub_groups.len()
            } else {
                g.collectables.len()
            },
            _ => 0,
        };
        proof {
            assert forall|j: int| 0 <= j < t0.len() implies same_kind(#[trigger] t0[j], self.spec_types()[j]) by {
                lemma_same_kind_refl(t0[j]);
            }
            assert(list_progress(t0, self.spec_types(), t as int, groups, 0));
        }
        let mut k: usize = 0;
        while k < n
            invariant
                self.wf(),
                old(self).wf(),
                t0 == old(self).spec_types(),
                refs0 == list_of(t0, t as int, groups),
                want == list_base(groups),
                self.spec_scopes() == old(self).spec_scopes(),
                self.spec_internal_path() == old(self).spec_internal_path(),
                n == refs0.len(),
                list_progress(t0, self.spec_types(), t as int, groups, k as int),
            decreases n - k,
        {
            let ghost cur = self.spec_types();
            proof {
                assert(list_of(cur, t as int, groups)[k as int] == refs0[k as int]);
                lemma_ref_target_kept(t0, cur, refs0[k as int], want);
            }
            let j = match self.ref_lookup(t, groups, k) {
                Ok(j) => j,
                Err(e) => {
                    proof {
                        assert(!(ref_target(t0, refs0[k as int], want) is Some));
                        assert(!prefix_resolves(t0, refs0, want, t as int, n as int));
                    }
                    return Err(e);
                },
            };
            proof {
                assert(not_own_sub(cur, t as int));
                if groups {
                    let rf = list_of(cur, t as int, true)[k as int];
                    if rf.item is None {
                        assert(type_name_bytes(cur[j as int]) == name_bytes(rf.name));
                    }
                    assert(j != t);
                }
            }
            let ghost before: Ast = *self;
            match &mut self.types[t] {
                Type::Custom(CustomType::CollectableGroup(g)) => if groups {
                    g.sub_groups[k].item = Some(j);
                } else {
                    g.collectables[k].item = Some(j);
                },
                _ => {},
            }
            proof {
                assert(links_in(cur, cur[t as int]));
                assert(links_in(cur, cur[j as int]));
                assert(links_in(self.types@, self.types@[t as int]));
                assert(own_sub_free(self.types@[t as int], t as int)) by {
                    let g0 = group_of(cur[t as int]);
                    let g1 = group_of(self.types@[t as int]);
                    assert forall|m: int| 0 <= m < g1.sub_groups@.len() implies ((#[trigger] g1.sub_groups@[m]).item != Some(t) && (
                        g1.sub_groups@[m].item is None ==> name_bytes(g1.sub_groups@[m].name) != name_bytes(g1.name))) by {
                        if !(groups && m == k) {
                            assert(g1.sub_groups@[m] == g0.sub_groups@[m]);
                        }
                    }
                }
                self.lemma_wf_after_update(before, t as int);
                lemma_list_record(t0, cur, self.spec_types(), t as int, groups, k as int, j as int);
            }
            let ghost mid = self.spec_types();
            proof {
                lemma_super_kept(t0, mid, t as int, j as int);
            }
            let res = self.set_super_type(j, t);
            if res.is_err() {
                proof {
                    assert(!takes_super(mid, j as int, t as int));
                    assert(!prefix_resolves(t0, refs0, want, t as int, n as int));
                }
                return res;
            }
            proof {
                lemma_list_super(t0, mid, self.spec_types(), t as int, groups, k as int, j as int);
            }
            k = k + 1;
        }
        Ok(())
    }
}


/// Whether the first values of the variables of scope `s` name only
/// variables that are found.
pub open spec fn scope_resolves(sc: Seq<Scope>, s: int) -> bool {
    inits_found(sc[s].vars@, lookup_in(sc))
}

/// Whether group `t` leads to type `j` through one of its references.
pub open spec fn claims(types: Seq<Type>, t: int, j: int) -> bool {
    types[t] matches Type::Custom(CustomType::CollectableGroup(g)) && (list_claims(
        types,
        g.sub_groups@,
        BaseCustomType::CollectableGroup,
        j,
    ) || list_claims(types, g.collectables@, BaseCustomType::Collectable, j))
}

/// Whether no type without a super type is led to by two of the first `n`
/// types.
pub open spec fn claims_unique(types: Seq<Type>, n: int) -> bool {
    forall|t1: int, t2: int, j: int|
        0 <= t1 < t2 < n && 0 <= j < types.len() && #[trigger] claims(types, t1, j) && #[trigger] claims(
            types,
            t2,
            j,
        ) ==> super_type_of(types[j]) is Some
}

/// Whether none of the first `i` types leads to type `j`.
pub open spec fn unclaimed_before(types: Seq<Type>, j: int, i: int) -> bool {
    forall|tp: int| 0 <= tp < i ==> !#[trigger] claims(types, tp, j)
}

/// Whether each type without a super type that a reference leads to is led
/// to by none of the first `i` types.
pub open spec fn no_early_claim(types: Seq<Type>, refs: Seq<ItemRefMut>, want: BaseCustomType, i: int) -> bool {
    forall|k: int|
        0 <= k < refs.len() ==> (ref_target(types, #[trigger] refs[k], want) matches Some(j) ==> (super_type_of(
            types[j],
        ) is None ==> unclaimed_before(types, j, i)))
}

/// Whether type `i` resolves on its own: it is no reference to a type never
/// defined, the scope of a collectable or an object resolves, and each
/// reference of a group leads to a type that can take the group as its
/// super type.
pub open spec fn type_resolves(types: Seq<Type>, sc: Seq<Scope>, i: int) -> bool {
    match types[i] {
        Type::Custom(CustomType::EarlyRef(_)) => false,
        Type::Custom(CustomType::Collectable(c)) => scope_resolves(sc, c.scope as int),
        Type::Custom(CustomType::Object(o)) => scope_resolves(sc, o.scope as int),
        Type::Custom(CustomType::CollectableGroup(g)) => refs_resolve(
            types,
            g.sub_groups@,
            BaseCustomType::CollectableGroup,
            i,
        ) && refs_resolve(types, g.collectables@, BaseCustomType::Collectable, i),
        _ => true,
    }
}

/// Whether a program resolves: each type resolves, no type without a super
/// type is listed by two groups, and the global scope resolves.
pub open spec fn program_resolves(types: Seq<Type>, sc: Seq<Scope>) -> bool {
    &&& forall|i: int| 0 <= i < types.len() ==> #[trigger] type_resolves(types, sc, i)
    &&& claims_unique(types, types.len() as int)
    &&& scope_resolves(sc, 0)
}

/// A program resolves only if the first value of every variable in the
/// scope of each object, and of each collectable, names only variables
/// that a lookup from that scope finds.
pub proof fn lemma_resolved_type_scopes(types: Seq<Type>, sc: Seq<Scope>)
    requires
        program_resolves(types, sc),
    ensures
        forall|t: int|
            0 <= t < types.len() ==> match #[trigger] types[t] {
                Type::Custom(CustomType::Object(o)) => forall|k: int|
                    0 <= k < sc[o.scope as int].vars@.len() ==> ((#[trigger] sc[o.scope as int].vars@[k]).initial matches Some(e)
                        ==> expr_found(e, lookup_in(sc))),
                Type::Custom(CustomType::Collectable(c)) => forall|k: int|
                    0 <= k < sc[c.scope as int].vars@.len() ==> ((#[trigger] sc[c.scope as int].vars@[k]).initial matches Some(e)
                        ==> expr_found(e, lookup_in(sc))),
                _ => true,
            },
{
    assert forall|t: int| 0 <= t < types.len() implies match #[trigger] types[t] {
        Type::Custom(CustomType::Object(o)) => forall|k: int|
            0 <= k < sc[o.scope as int].vars@.len() ==> ((#[trigger] sc[o.scope as int].vars@[k]).initial matches Some(e)
                ==> expr_found(e, lookup_in(sc))),
        Type::Custom(CustomType::Collectable(c)) => forall|k: int|
            0 <= k < sc[c.scope as int].vars@.len() ==> ((#[trigger] sc[c.scope as int].vars@[k]).initial matches Some(e)
                ==> expr_found(e, lookup_in(sc))),
        _ => true,
    } by {
        assert(type_resolves(types, sc, t));
    }
}

/// A type that gained a super type had none and took a group that lists it,
/// one of the first `i` or the one at `i`.
pub open spec fn super_track(t0: Seq<Type>, cur: Seq<Type>, i: int) -> bool {
    forall|j: int|
        0 <= j < t0.len() ==> (super_type_of(#[trigger] cur[j]) == super_type_of(t0[j]) || (super_type_of(t0[j]) is None
            && (super_type_of(cur[j]) matches Some(tp) && tp <= i && claims(t0, tp as int, j))))
}

/// Each type that one of the first `i` groups lists has a super type of the
/// name of that group.
pub open spec fn claimed_named(t0: Seq<Type>, cur: Seq<Type>, i: int) -> bool {
    forall|tp: int, j: int|
        0 <= tp < i && 0 <= j < t0.len() && #[trigger] claims(t0, tp, j) ==> (super_type_of(cur[j]) matches Some(st)
            && type_name_bytes(cur[st as int]) == type_name_bytes(t0[tp]))
}

/// References lead to the same types, and those can take group `i` as
/// their super type, exactly when they could before the first `i` types
/// were resolved and no earlier group lists them.
proof fn lemma_refs_tracked(t0: Seq<Type>, cur: Seq<Type>, refs: Seq<ItemRefMut>, want: BaseCustomType, i: int)
    requires
        0 <= i < t0.len(),
        types_kept(t0, cur),
        type_names_unique(t0),
        type_names_unique(cur),
        links_valid(t0),
        links_valid(cur),
        super_track(t0, cur, i),
        claimed_named(t0, cur, i),
        forall|k: int|
            0 <= k < refs.len() ==> (ref_target(t0, #[trigger] refs[k], want) matches Some(j) ==> 0 <= j < t0.len()),
    ensures
        refs_resolve(cur, refs, want, i) <==> (refs_resolve(t0, refs, want, i) && no_early_claim(t0, refs, want, i)),
{
    assert forall|k: int| 0 <= k < refs.len() implies ((ref_target(cur, #[trigger] refs[k], want) matches Some(j)
        && takes_super(cur, j, i)) <==> ((ref_target(t0, refs[k], want) matches Some(j) && takes_super(t0, j, i))
        && (ref_target(t0, refs[k], want) matches Some(j) ==> (super_type_of(t0[j]) is None ==> unclaimed_before(t0, j, i))))) by {
        lemma_ref_target_kept(t0, cur, refs[k], want);
        if let Some(j) = ref_target(t0, refs[k], want) {
            if 0 <= j < t0.len() {
                assert(links_in(t0, t0[j]));
                assert(links_in(cur, cur[j]));
                assert(super_type_of(cur[j]) == super_type_of(t0[j]) || (super_type_of(t0[j]) is None
                    && (super_type_of(cur[j]) matches Some(tp) && tp <= i && claims(t0, tp as int, j))));
                match super_type_of(t0[j]) {
                    Some(st) => {
                        assert(type_name_bytes(cur[st as int]) == type_name_bytes(t0[st as int]));
                        assert(type_name_bytes(cur[i]) == type_name_bytes(t0[i]));
                    },
                    None => {
                        match super_type_of(cur[j]) {
                            Some(tp) => {
                                if tp < i {
                                    assert(claims(t0, tp as int, j));
                                    assert(type_name_bytes(cur[tp as int]) != type_name_bytes(cur[i]));
                                } else {
                                    assert forall|tq: int| 0 <= tq < i implies !#[trigger] claims(t0, tq, j) by {
                                        if claims(t0, tq, j) {
                                            assert(type_name_bytes(cur[tp as int]) == type_name_bytes(t0[tq]));
                                            assert(type_name_bytes(cur[tq]) == type_name_bytes(t0[tq]));
                                        }
                                    }
                                }
                            },
                            None => {
                                assert forall|tq: int| 0 <= tq < i implies !#[trigger] claims(t0, tq, j) by {
                                    if claims(t0, tq, j) {
                                        assert(super_type_of(cur[j]) is Some);
                                    }
                                }
                            },
                        }
                    },
                }
            }
        }
    }
}

/// The references of a group lead to types of the program.
proof fn lemma_list_targets_in(types: Seq<Type>, t: int, groups: bool)
    requires
        links_valid(types),
        0 <= t < types.len(),
        types[t] matches Type::Custom(CustomType::CollectableGroup(_)),
    ensures
        forall|k: int|
            0 <= k < list_of(types, t, groups).len() ==> (ref_target(types, #[trigger] list_of(types, t, groups)[k], list_base(groups)) matches Some(j)
                ==> 0 <= j < types.len()),
{
    assert(links_in(types, types[t]));
}


/// The first `i + 1` types list no type without a super type twice exactly
/// when the first `i` do not and group `i` lists no such type that one of
/// them lists.
proof fn lemma_claims_unique_step(t0: Seq<Type>, i: int)
    requires
        0 <= i < t0.len(),
        links_valid(t0),
        t0[i] matches Type::Custom(CustomType::CollectableGroup(_)),
        claims_unique(t0, i),
    ensures
        claims_unique(t0, i + 1) <==> (no_early_claim(
            t0,
            list_of(t0, i, true),
            BaseCustomType::CollectableGroup,
            i,
        ) && no_early_claim(t0, list_of(t0, i, false), BaseCustomType::Collectable, i)),
{
    lemma_list_targets_in(t0, i, true);
    lemma_list_targets_in(t0, i, false);
    let sub = list_of(t0, i, true);
    let col = list_of(t0, i, false);
    if claims_unique(t0, i + 1) {
        assert forall|k: int| 0 <= k < sub.len() implies (ref_target(t0, #[trigger] sub[k], BaseCustomType::CollectableGroup) matches Some(j)
            ==> (super_type_of(t0[j]) is None ==> unclaimed_before(t0, j, i))) by {
            if let Some(j) = ref_target(t0, sub[k], BaseCustomType::CollectableGroup) {
                assert(list_claims(t0, sub, BaseCustomType::CollectableGroup, j));
                assert(claims(t0, i, j));
                if super_type_of(t0[j]) is None {
                    assert forall|tp: int| 0 <= tp < i implies !#[trigger] claims(t0, tp, j) by {
                        if claims(t0, tp, j) {
                            assert(claims(t0, i, j));
                        }
                    }
                }
            }
        }
        assert forall|k: int| 0 <= k < col.len() implies (ref_target(t0, #[trigger] col[k], BaseCustomType::Collectable) matches Some(j)
            ==> (super_type_of(t0[j]) is None ==> unclaimed_before(t0, j, i))) by {
            if let Some(j) = ref_target(t0, col[k], BaseCustomType::Collectable) {
                assert(list_claims(t0, col, BaseCustomType::Collectable, j));
                assert(claims(t0, i, j));
                if super_type_of(t0[j]) is None {
                    assert forall|tp: int| 0 <= tp < i implies !#[trigger] claims(t0, tp, j) by {
                        if claims(t0, tp, j) {
                            assert(claims(t0, i, j));
                        }
                    }
                }
            }
        }
    } else {
        let (t1, t2, j) = choose|t1: int, t2: int, j: int|
            !(0 <= t1 < t2 < i + 1 && 0 <= j < t0.len() && #[trigger] claims(t0, t1, j) && #[trigger] claims(t0, t2, j)
                ==> super_type_of(t0[j]) is Some);
        assert(t2 == i);
        if list_claims(t0, sub, BaseCustomType::CollectableGroup, j) {
            let k = choose|k: int| 0 <= k < sub.len() && ref_target(t0, #[trigger] sub[k], BaseCustomType::CollectableGroup) == Some(j);
            if no_early_claim(t0, sub, BaseCustomType::CollectableGroup, i) {
                assert(unclaimed_before(t0, j, i));
                assert(!claims(t0, t1, j));
            }
        } else {
            let k = choose|k: int| 0 <= k < col.len() && ref_target(t0, #[trigger] col[k], BaseCustomType::Collectable) == Some(j);
            if no_early_claim(t0, col, BaseCustomType::Collectable, i) {
                assert(unclaimed_before(t0, j, i));
                assert(!claims(t0, t1, j));
            }
        }
    }
}


/// Super types that exist stay.
pub open spec fn supers_grow(a: Seq<Type>, b: Seq<Type>) -> bool {
    forall|j: int| 0 <= j < a.len() ==> super_type_of(#[trigger] b[j]) == super_type_of(a[j]) || super_type_of(a[j]) is None
}

proof fn lemma_types_kept_trans(a: Seq<Type>, b: Seq<Type>, c: Seq<Type>)
    requires
        types_kept(a, b),
        types_kept(b, c),
    ensures
        types_kept(a, c),
{
    assert forall|j: int| 0 <= j < a.len() implies same_kind(#[trigger] a[j], c[j]) && type_name_bytes(c[j]) == type_name_bytes(
        a[j]) && type_scopes(c[j]) == type_scopes(a[j]) by {
        assert(same_kind(a[j], b[j]));
        assert(same_kind(b[j], c[j]));
    }
}

/// What resolving one list of references of a group found stays resolved
/// while super types only appear.
proof fn lemma_resolved_persists(
    t0: Seq<Type>,
    a: Seq<Type>,
    b: Seq<Type>,
    refs: Seq<ItemRefMut>,
    now: Seq<ItemRefMut>,
    want: BaseCustomType,
    t: int,
)
    requires
        refs_resolved(t0, a, refs, now, want, t),
        types_kept(a, b),
        supers_grow(a, b),
        links_valid(a),
        0 <= t < a.len(),
        forall|k: int| 0 <= k < refs.len() ==> (ref_target(t0, #[trigger] refs[k], want) matches Some(j) ==> 0 <= j < a.len()),
    ensures
        refs_resolved(t0, b, refs, now, want, t),
{
    assert forall|k: int| 0 <= k < refs.len() implies (#[trigger] now[k]).name == refs[k].name && (ref_target(t0, refs[k], want) matches Some(j)
        && now[k].item == Some(j as usize) && (super_type_of(b[j]) matches Some(st) && type_name_bytes(b[st as int])
        == type_name_bytes(b[t]))) by {
        let j = ref_target(t0, refs[k], want).unwrap();
        assert(links_in(a, a[j]));
        let st = super_type_of(a[j]).unwrap();
        assert(super_type_of(b[j]) == Some(st));
        assert(type_name_bytes(b[st as int]) == type_name_bytes(a[st as int]));
    }
}

/// Resolving one list of references of group `i` keeps the account of the
/// super types, and records the list as resolved when it succeeds.
proof fn lemma_after_list(t0: Seq<Type>, cur: Seq<Type>, nxt: Seq<Type>, i: int, groups: bool, ok: bool)
    requires
        0 <= i < t0.len(),
        t0[i] matches Type::Custom(CustomType::CollectableGroup(_)),
        links_valid(t0),
        links_valid(cur),
        type_names_unique(t0),
        type_names_unique(cur),
        types_kept(t0, cur),
        super_track(t0, cur, i),
        claimed_named(t0, cur, i),
        list_of(cur, i, groups) == list_of(t0, i, groups),
        types_kept(cur, nxt),
        others_kept(cur, nxt, i),
        nxt[i] matches Type::Custom(CustomType::CollectableGroup(h)) && group_kept(group_of(cur[i]), h, groups, i),
        forall|x: int|
            0 <= x < cur.len() && super_type_of(#[trigger] nxt[x]) != super_type_of(cur[x]) ==> list_claims(
                cur,
                list_of(cur, i, groups),
                list_base(groups),
                x,
            ),
        ok ==> refs_resolved(cur, nxt, list_of(cur, i, groups), list_of(nxt, i, groups), list_base(groups), i),
        i <= usize::MAX,
    ensures
        types_kept(t0, nxt),
        super_track(t0, nxt, i),
        claimed_named(t0, nxt, i),
        supers_grow(cur, nxt),
        forall|t: int, b: bool|
            0 <= t < t0.len() && (t != i || b != groups) ==> #[trigger] list_of(nxt, t, b) == list_of(cur, t, b),
        ok ==> refs_resolved(t0, nxt, list_of(t0, i, groups), list_of(nxt, i, groups), list_base(groups), i),
{
    let want = list_base(groups);
    let refs = list_of(t0, i, groups);
    lemma_types_kept_trans(t0, cur, nxt);
    lemma_list_targets_in(t0, i, groups);
    assert forall|j: int| 0 <= j < cur.len() implies super_type_of(#[trigger] nxt[j]) == super_type_of(cur[j])
        || super_type_of(cur[j]) is None by {
        lemma_super_kept(cur, nxt, i, j);
    }
    assert forall|j: int| 0 <= j < t0.len() implies (super_type_of(#[trigger] nxt[j]) == super_type_of(t0[j]) || (super_type_of(t0[j]) is None
        && (super_type_of(nxt[j]) matches Some(tp) && tp <= i && claims(t0, tp as int, j)))) by {
        lemma_super_kept(cur, nxt, i, j);
        assert(super_type_of(cur[j]) == super_type_of(t0[j]) || (super_type_of(t0[j]) is None
            && (super_type_of(cur[j]) matches Some(tp) && tp <= i && claims(t0, tp as int, j))));
        if super_type_of(nxt[j]) != super_type_of(cur[j]) {
            assert(list_claims(cur, refs, want, j));
            let k = choose|k: int| 0 <= k < refs.len() && ref_target(cur, #[trigger] refs[k], want) == Some(j);
            lemma_ref_target_kept(t0, cur, refs[k], want);
            assert(list_claims(t0, refs, want, j));
            assert(claims(t0, i, j));
        }
    }
    assert forall|tp: int, j: int| 0 <= tp < i && 0 <= j < t0.len() && #[trigger] claims(t0, tp, j) implies (super_type_of(nxt[j]) matches Some(st)
        && type_name_bytes(nxt[st as int]) == type_name_bytes(t0[tp])) by {
        let st = super_type_of(cur[j]).unwrap();
        assert(links_in(cur, cur[j]));
        assert(type_name_bytes(nxt[st as int]) == type_name_bytes(cur[st as int]));
    }
    assert forall|t: int, b: bool| 0 <= t < t0.len() && (t != i || b != groups) implies #[trigger] list_of(nxt, t, b) == list_of(cur, t, b) by {
        if t != i {
            lemma_with_super_kept(cur[t], i as usize);
        }
    }
    if ok {
        assert forall|k: int| 0 <= k < refs.len() implies (#[trigger] list_of(nxt, i, groups)[k]).name == refs[k].name && (ref_target(t0, refs[k], want) matches Some(j)
            && list_of(nxt, i, groups)[k].item == Some(j as usize) && (super_type_of(nxt[j]) matches Some(st) && type_name_bytes(nxt[st as int])
            == type_name_bytes(nxt[i]))) by {
            lemma_ref_target_kept(t0, cur, refs[k], want);
        }
    }
}


/// The type `b` is the type `a` but for its super type and, for a group,
/// the references it lists.
pub open spec fn fields_kept(a: Type, b: Type) -> bool {
    match (a, b) {
        (Type::Custom(CustomType::Collectable(x)), Type::Custom(CustomType::Collectable(y))) => y
            == Collectable { parent: y.parent, ..x },
        (Type::Custom(CustomType::CollectableGroup(g)), Type::Custom(CustomType::CollectableGroup(h))) => h
            == CollectableGroup {
            parent: h.parent,
            sub_groups: h.sub_groups,
            collectables: h.collectables,
            ..g
        },
        (Type::Custom(CustomType::Object(o)), Type::Custom(CustomType::Object(p))) => p == Object {
            super_type: p.super_type,
            ..o
        },
        _ => b == a,
    }
}

/// Every type of `b` is its type in `a` but for its super type and, for a
/// group, the references it lists.
pub open spec fn all_fields_kept(a: Seq<Type>, b: Seq<Type>) -> bool {
    forall|j: int| 0 <= j < a.len() ==> fields_kept(a[j], #[trigger] b[j])
}

proof fn lemma_fields_kept_trans(a: Type, b: Type, c: Type)
    requires
        fields_kept(a, b),
        fields_kept(b, c),
    ensures
        fields_kept(a, c),
{
}

proof fn lemma_fields_kept_refl(a: Type)
    ensures
        fields_kept(a, a),
{
}

/// Resolving one list of references of group `i` keeps every other field.
proof fn lemma_list_fields_kept(cur: Seq<Type>, nxt: Seq<Type>, i: int, groups: bool)
    requires
        0 <= i < cur.len(),
        types_kept(cur, nxt),
        others_kept(cur, nxt, i),
        cur[i] matches Type::Custom(CustomType::CollectableGroup(_)),
        nxt[i] matches Type::Custom(CustomType::CollectableGroup(h)) && group_kept(group_of(cur[i]), h, groups, i),
    ensures
        all_fields_kept(cur, nxt),
{
    assert forall|j: int| 0 <= j < cur.len() implies fields_kept(cur[j], #[trigger] nxt[j]) by {
        if j != i {
            lemma_fields_kept_refl(cur[j]);
        }
    }
}

/// The scope a collectable or an object resolves.
pub open spec fn checked_scope_of(t: Type) -> Option<usize> {
    match t {
        Type::Custom(CustomType::Collectable(c)) => Some(c.scope),
        Type::Custom(CustomType::Object(o)) => Some(o.scope),
        _ => None,
    }
}

/// Whether one of the first `i` types resolves scope `s`.
pub open spec fn scope_checked(types: Seq<Type>, s: int, i: int) -> bool {
    exists|t: int| 0 <= t < i && #[trigger] checked_scope_of(types[t]) == Some(s as usize)
}

/// Scope `s` is resolved once one of the first `i` types resolved it, and
/// as it was before.
pub open spec fn scope_progress(t0: Seq<Type>, s0: Seq<Scope>, sc: Seq<Scope>, s: int, i: int) -> bool {
    if scope_checked(t0, s, i) {
        scope_resolved(s0[s], sc[s], lookup_in(s0))
    } else {
        sc[s] == s0[s]
    }
}

pub open spec fn scopes_progress(t0: Seq<Type>, s0: Seq<Scope>, sc: Seq<Scope>, i: int) -> bool {
    forall|s: int| 0 <= s < s0.len() ==> #[trigger] scope_progress(t0, s0, sc, s, i)
}

/// Resolving type `i` resolves its scope, if it is a collectable or an
/// object, and leaves the other scopes as they were.
proof fn lemma_scope_step(t0: Seq<Type>, s0: Seq<Scope>, sc: Seq<Scope>, sc2: Seq<Scope>, i: int)
    requires
        0 <= i < t0.len(),
        i <= usize::MAX,
        s0.len() <= usize::MAX,
        scopes_wf(s0),
        scopes_wf(sc),
        same_shape(s0, sc),
        scopes_progress(t0, s0, sc, i),
        match checked_scope_of(t0[i]) {
            None => sc2 == sc,
            Some(si) => si < s0.len() && sc2.len() == sc.len() && (forall|x: int|
                0 <= x < sc.len() && x != si ==> #[trigger] sc2[x] == sc[x]) && scope_resolved(
                sc[si as int],
                sc2[si as int],
                lookup_in(sc),
            ),
        },
    ensures
        scopes_progress(t0, s0, sc2, i + 1),
{
    lemma_lookup_shape(s0, sc);
    assert forall|x: int| 0 <= x < s0.len() implies #[trigger] scope_progress(t0, s0, sc2, x, i + 1) by {
        assert(scope_progress(t0, s0, sc, x, i));
        if checked_scope_of(t0[i]) == Some(x as usize) {
            assert(scope_checked(t0, x, i + 1));
            if scope_checked(t0, x, i) {
                lemma_scope_resolved_trans(s0[x], sc[x], sc2[x], s0);
            }
        } else {
            if scope_checked(t0, x, i + 1) {
                let t = choose|t: int| 0 <= t < i + 1 && #[trigger] checked_scope_of(t0[t]) == Some(x as usize);
                assert(t != i);
                assert(scope_checked(t0, x, i));
            }
            if scope_checked(t0, x, i) {
                let t = choose|t: int| 0 <= t < i && #[trigger] checked_scope_of(t0[t]) == Some(x as usize);
                assert(scope_checked(t0, x, i + 1));
            }
            match checked_scope_of(t0[i]) {
                Some(si) => assert(sc2[x] == sc[x]),
                None => {},
            }
        }
    }
}

/// How the program stands once its first `i` types are resolved.
pub open spec fn check_progress(t0: Seq<Type>, s0: Seq<Scope>, cur: Seq<Type>, sc: Seq<Scope>, i: int) -> bool {
    &&& 0 <= i <= t0.len()
    &&& types_kept(t0, cur)
    &&& all_fields_kept(t0, cur)
    &&& same_shape(s0, sc)
    &&& forall|s: int| 0 <= s < s0.len() ==> #[trigger] scope_resolves(sc, s) == scope_resolves(s0, s)
    &&& forall|t: int| 0 <= t < i ==> #[trigger] type_resolves(t0, s0, t)
    &&& claims_unique(t0, i)
    &&& super_track(t0, cur, i)
    &&& claimed_named(t0, cur, i)
    &&& forall|t: int, b: bool| i <= t < t0.len() ==> #[trigger] list_of(cur, t, b) == list_of(t0, t, b)
    &&& forall|t: int, b: bool|
        0 <= t < i && (t0[t] matches Type::Custom(CustomType::CollectableGroup(_))) ==> refs_resolved(
            t0,
            cur,
            list_of(t0, t, b),
            #[trigger] list_of(cur, t, b),
            list_base(b),
            t,
        )
}

impl Ast {
    /// Resolves the first values of the variables of scope `s`.
    fn resolve_scope_of(&mut self, s: usize) -> (r: Result<(), AstErrorKind>)
        requires
            old(self).wf(),
            s < old(self).spec_scopes().len(),
        ensures
            final(self).wf(),
            final(self).spec_types() == old(self).spec_types(),
            final(self).spec_internal_path() == old(self).spec_internal_path(),
            same_shape(old(self).spec_scopes(), final(self).spec_scopes()),
            forall|x: int|
                0 <= x < old(self).spec_scopes().len() && x != s ==> #[trigger] final(self).spec_scopes()[x]
                    == old(self).spec_scopes()[x],
            r is Ok <==> scope_resolves(old(self).spec_scopes(), s as int),
            r is Ok ==> scope_resolves(final(self).spec_scopes(), s as int),
            r is Ok ==> scope_resolved(
                old(self).spec_scopes()[s as int],
                final(self).spec_scopes()[s as int],
                lookup_in(old(self).spec_scopes()),
            ),
            r matches Err(e) ==> (e matches AstErrorKind::NotDefined(_, _, w) && w == "variable"),
    {
        let r = self.scopes.resolve_scope(s);
        proof {
            assert forall|i: int, k: int|
                0 <= i < self.types@.len() && 0 <= k < type_scopes(self.types@[i]).len() implies (
                #[trigger] type_scopes(self.types@[i])[k]) < self.scopes@.len() by {
                assert(type_scopes(old(self).types@[i])[k] < old(self).scopes@.len());
            }
            assert(self.scopes@[0].parent == old(self).scopes@[0].parent);
        }
        r
    }
}


/// A type that is not a group lists nothing.
proof fn lemma_no_claims(t0: Seq<Type>, i: int)
    requires
        0 <= i < t0.len(),
        !(t0[i] matches Type::Custom(CustomType::CollectableGroup(_))),
    ensures
        forall|j: int| !#[trigger] claims(t0, i, j),
{
}

/// Resolving a type that is not a group leaves the account of the groups as
/// it was.
proof fn lemma_progress_plain(t0: Seq<Type>, s0: Seq<Scope>, cur: Seq<Type>, sc: Seq<Scope>, i: int)
    requires
        check_progress(t0, s0, cur, sc, i),
        i < t0.len(),
        !(t0[i] matches Type::Custom(CustomType::CollectableGroup(_))),
        type_resolves(t0, s0, i),
    ensures
        check_progress(t0, s0, cur, sc, i + 1),
{
    lemma_no_claims(t0, i);
    assert forall|t1: int, t2: int, j: int|
        0 <= t1 < t2 < i + 1 && 0 <= j < t0.len() && #[trigger] claims(t0, t1, j) && #[trigger] claims(t0, t2, j)
        implies super_type_of(t0[j]) is Some by {
        assert(t2 != i);
    }
    assert forall|t: int, b: bool|
        0 <= t < i + 1 && (t0[t] matches Type::Custom(CustomType::CollectableGroup(_))) implies refs_resolved(
            t0,
            cur,
            list_of(t0, t, b),
            #[trigger] list_of(cur, t, b),
            list_base(b),
            t,
        ) by {
        assert(t != i);
    }
}

impl Ast {
    /// Resolves type `i`: the scope of a collectable or an object, the
    /// references of a group; a reference to a type never defined is an
    /// error.
    fn resolve_type_at(&mut self, i: usize, Ghost(t0): Ghost<Seq<Type>>, Ghost(s0): Ghost<Seq<Scope>>) -> (r: Result<(), AstErrorKind>)
        requires
            old(self).wf(),
            links_valid(t0),
            type_names_unique(t0),
            scopes_wf(s0),
            i < t0.len(),
            s0.len() <= usize::MAX,
            check_progress(t0, s0, old(self).spec_types(), old(self).spec_scopes(), i as int),
            scopes_progress(t0, s0, old(self).spec_scopes(), i as int),
        ensures
            final(self).wf(),
            final(self).spec_internal_path() == old(self).spec_internal_path(),
            types_kept(t0, final(self).spec_types()),
            same_shape(s0, final(self).spec_scopes()),
            r is Ok <==> (type_resolves(t0, s0, i as int) && claims_unique(t0, i + 1)),
            r is Ok ==> check_progress(t0, s0, final(self).spec_types(), final(self).spec_scopes(), i + 1),
            r is Ok ==> scopes_progress(t0, s0, final(self).spec_scopes(), i + 1),
            r matches Err(e) ==> (e is NotDefined || e is ConflictingSuperType),
    {
        let ghost cur = self.spec_types();
        let ghost sc = self.spec_scopes();
        proof {
            assert(same_kind(t0[i as int], cur[i as int]));
        }
        let kind: u8 = match &self.types[i] {
            Type::Custom(CustomType::EarlyRef(_)) => 0,
            Type::Custom(CustomType::Collectable(_)) => 1,
            Type::Custom(CustomType::Object(_)) => 1,
            Type::Custom(CustomType::CollectableGroup(_)) => 2,
            _ => 3,
        };
        if kind == 0 {
            let err = match &self.types[i] {
                Type::Custom(CustomType::EarlyRef(e)) => AstErrorKind::NotDefined(
                    slice_to_vec(e.name.value().as_slice()),
                    e.name.span().clone(),
                    e.real_ty.as_str(),
                ),
                _ => vstd::pervasive::unreached(),
            };
            return Err(err);
        } else if kind == 1 {
            let s = match &self.types[i] {
                Type::Custom(CustomType::Collectable(c)) => c.scope,
                Type::Custom(CustomType::Object(o)) => o.scope,
                _ => 0,
            };
            proof {
                assert(type_scopes(cur[i as int]) == type_scopes(t0[i as int]));
                assert(type_scopes(cur[i as int])[0] < sc.len());
            }
            let r = self.resolve_scope_of(s);
            proof {
                let sc2 = self.spec_scopes();
                lemma_same_shape_trans(s0, sc, sc2);
                lemma_no_claims(t0, i as int);
                if r.is_ok() {
                    lemma_lookup_shape(sc, sc2);
                    assert forall|x: int| 0 <= x < s0.len() implies #[trigger] scope_resolves(sc2, x) == scope_resolves(s0, x) by {
                        assert(scope_resolves(sc, x) == scope_resolves(s0, x));
                        if x != s {
                            assert(sc2[x] == sc[x]);
                        }
                    }
                    assert(check_progress(t0, s0, cur, sc2, i as int));
                    lemma_progress_plain(t0, s0, cur, sc2, i as int);
                    assert(checked_scope_of(t0[i as int]) == Some(s)) by {
                        assert(type_scopes(cur[i as int])[0] == type_scopes(t0[i as int])[0]);
                    }
                    lemma_scope_step(t0, s0, sc, sc2, i as int);
                } else {
                    assert(scope_resolves(sc, s as int) == scope_resolves(s0, s as int));
                }
            }
            r
        } else if kind == 2 {
            proof {
                lemma_refs_tracked(t0, cur, list_of(t0, i as int, true), BaseCustomType::CollectableGroup, i as int);
                lemma_list_targets_in(t0, i as int, true);
                lemma_list_targets_in(t0, i as int, false);
                lemma_claims_unique_step(t0, i as int);
            }
            let r1 = self.resolve_group_list(i, true);
            let ghost cur2 = self.spec_types();
            proof {
                lemma_after_list(t0, cur, cur2, i as int, true, r1.is_ok());
            }
            if r1.is_err() {
                return r1;
            }
            proof {
                assert(list_of(cur2, i as int, false) == list_of(cur, i as int, false));
                lemma_refs_tracked(t0, cur2, list_of(t0, i as int, false), BaseCustomType::Collectable, i as int);
            }
            let r2 = self.resolve_group_list(i, false);
            let ghost cur3 = self.spec_types();
            proof {
                lemma_after_list(t0, cur2, cur3, i as int, false, r2.is_ok());
                if r2.is_ok() {
                    lemma_scope_step(t0, s0, sc, sc, i as int);
                    lemma_list_fields_kept(cur, cur2, i as int, true);
                    lemma_list_fields_kept(cur2, cur3, i as int, false);
                    self.lemma_group_progress(t0, s0, cur, cur2, cur3, sc, i as int);
                }
            }
            r2
        } else {
            proof {
                lemma_progress_plain(t0, s0, cur, sc, i as int);
                lemma_scope_step(t0, s0, sc, sc, i as int);
            }
            Ok(())
        }
    }

    /// After both lists of group `i` were resolved, the first `i + 1` types
    /// are.
    proof fn lemma_group_progress(
        &self,
        t0: Seq<Type>,
        s0: Seq<Scope>,
        cur: Seq<Type>,
        cur2: Seq<Type>,
        cur3: Seq<Type>,
        sc: Seq<Scope>,
        i: int,
    )
        requires
            0 <= i < t0.len(),
            t0[i] matches Type::Custom(CustomType::CollectableGroup(_)),
            links_valid(t0),
            links_valid(cur2),
            check_progress(t0, s0, cur, sc, i),
            type_resolves(t0, s0, i),
            claims_unique(t0, i + 1),
            types_kept(t0, cur3),
            super_track(t0, cur3, i),
            claimed_named(t0, cur3, i),
            types_kept(t0, cur2),
            types_kept(cur2, cur3),
            supers_grow(cur, cur2),
            supers_grow(cur2, cur3),
            links_valid(cur),
            forall|t: int, b: bool| 0 <= t < t0.len() && (t != i || b != true) ==> #[trigger] list_of(cur2, t, b) == list_of(cur, t, b),
            forall|t: int, b: bool| 0 <= t < t0.len() && (t != i || b != false) ==> #[trigger] list_of(cur3, t, b) == list_of(cur2, t, b),
            refs_resolved(t0, cur2, list_of(t0, i, true), list_of(cur2, i, true), BaseCustomType::CollectableGroup, i),
            refs_resolved(t0, cur3, list_of(t0, i, false), list_of(cur3, i, false), BaseCustomType::Collectable, i),
            all_fields_kept(cur, cur2),
            all_fields_kept(cur2, cur3),
        ensures
            check_progress(t0, s0, cur3, sc, i + 1),
    {
        assert forall|j: int| 0 <= j < t0.len() implies fields_kept(t0[j], #[trigger] cur3[j]) by {
            lemma_fields_kept_trans(t0[j], cur[j], cur2[j]);
            lemma_fields_kept_trans(t0[j], cur2[j], cur3[j]);
        }
        lemma_types_kept_trans(t0, cur, cur2);
        lemma_list_targets_in(t0, i, true);
        lemma_list_targets_in(t0, i, false);
        lemma_resolved_persists(t0, cur2, cur3, list_of(t0, i, true), list_of(cur2, i, true), BaseCustomType::CollectableGroup, i);
        assert(list_of(cur3, i, true) == list_of(cur2, i, true));
        assert forall|tp: int, j: int| 0 <= tp < i + 1 && 0 <= j < t0.len() && #[trigger] claims(t0, tp, j) implies (super_type_of(cur3[j]) matches Some(st)
            && type_name_bytes(cur3[st as int]) == type_name_bytes(t0[tp])) by {
            if tp == i {
                let sub = list_of(t0, i, true);
                let col = list_of(t0, i, false);
                if list_claims(t0, sub, BaseCustomType::CollectableGroup, j) {
                    let k = choose|k: int| 0 <= k < sub.len() && ref_target(t0, #[trigger] sub[k], BaseCustomType::CollectableGroup) == Some(j);
                    assert(list_of(cur3, i, true)[k].item == Some(j as usize));
                } else {
                    let k = choose|k: int| 0 <= k < col.len() && ref_target(t0, #[trigger] col[k], BaseCustomType::Collectable) == Some(j);
                    assert(list_of(cur3, i, false)[k].item == Some(j as usize));
                }
            }
        }
        assert forall|t: int, b: bool| i + 1 <= t < t0.len() implies #[trigger] list_of(cur3, t, b) == list_of(t0, t, b) by {
            assert(list_of(cur2, t, b) == list_of(cur, t, b));
        }
        assert forall|t: int, b: bool|
            0 <= t < i + 1 && (t0[t] matches Type::Custom(CustomType::CollectableGroup(_))) implies refs_resolved(
                t0,
                cur3,
                list_of(t0, t, b),
                #[trigger] list_of(cur3, t, b),
                list_base(b),
                t,
            ) by {
            if t < i {
                lemma_list_targets_in(t0, t, b);
                assert(list_of(cur2, t, b) == list_of(cur, t, b));
                lemma_resolved_persists(t0, cur, cur2, list_of(t0, t, b), list_of(cur, t, b), list_base(b), t);
                lemma_resolved_persists(t0, cur2, cur3, list_of(t0, t, b), list_of(cur2, t, b), list_base(b), t);
            } else if b {
            } else {
            }
        }
    }
}


impl Ast {
    /// Resolves every reference of the program: each type in turn, then the
    /// global scope. The first that cannot be resolved is the error. A
    /// program that resolves passes the type check as it stands.
    pub fn typecheck(&mut self) -> (r: Result<(), AstErrorKind>)
        requires
            old(self).wf(),
        ensures
            final(self).wf(),
            final(self).spec_internal_path() == old(self).spec_internal_path(),
            types_kept(old(self).spec_types(), final(self).spec_types()),
            same_shape(old(self).spec_scopes(), final(self).spec_scopes()),
            r is Ok <==> program_resolves(old(self).spec_types(), old(self).spec_scopes()),
            r is Ok ==> forall|s: int|
                0 <= s < old(self).spec_scopes().len() ==> #[trigger] scope_resolves(final(self).spec_scopes(), s)
                    == scope_resolves(old(self).spec_scopes(), s),
            r is Ok ==> super_track(
                old(self).spec_types(),
                final(self).spec_types(),
                old(self).spec_types().len() as int,
            ),
            r is Ok ==> claimed_named(
                old(self).spec_types(),
                final(self).spec_types(),
                old(self).spec_types().len() as int,
            ),
            r is Ok ==> forall|t: int, b: bool|
                0 <= t < old(self).spec_types().len() && (old(self).spec_types()[t] matches Type::Custom(
                    CustomType::CollectableGroup(_),
                )) ==> refs_resolved(
                    old(self).spec_types(),
                    final(self).spec_types(),
                    list_of(old(self).spec_types(), t, b),
                    #[trigger] list_of(final(self).spec_types(), t, b),
                    list_base(b),
                    t,
                ),
            r is Ok ==> program_resolves(final(self).spec_types(), final(self).spec_scopes()),
            r is Ok ==> all_fields_kept(old(self).spec_types(), final(self).spec_types()),
            r is Ok ==> forall|s: int|
                #![trigger final(self).spec_scopes()[s]]
                0 <= s < old(self).spec_scopes().len() ==> if scope_checked(
                    old(self).spec_types(),
                    s,
                    old(self).spec_types().len() as int,
                ) || s == 0 {
                    scope_resolved(
                        old(self).spec_scopes()[s],
                        final(self).spec_scopes()[s],
                        lookup_in(old(self).spec_scopes()),
                    )
                } else {
                    final(self).spec_scopes()[s] == old(self).spec_scopes()[s]
                },
            r is Ok ==> forall|t: int|
                0 <= t < old(self).spec_types().len() ==> match #[trigger] old(self).spec_types()[t] {
                    Type::Custom(CustomType::Object(o)) => scope_resolved(
                        old(self).spec_scopes()[o.scope as int],
                        final(self).spec_scopes()[o.scope as int],
                        lookup_in(old(self).spec_scopes()),
                    ),
                    Type::Custom(CustomType::Collectable(c)) => scope_resolved(
                        old(self).spec_scopes()[c.scope as int],
                        final(self).spec_scopes()[c.scope as int],
                        lookup_in(old(self).spec_scopes()),
                    ),
                    _ => true,
                },
            r matches Err(e) ==> (e is NotDefined || e is ConflictingSuperType),
    {
        let ghost t0 = self.spec_types();
        let ghost s0 = self.spec_scopes();
        let n = self.types.len();
        let scope_count = self.scopes.len();
        proof {
            assert forall|j: int| 0 <= j < t0.len() implies same_kind(#[trigger] t0[j], t0[j]) by {
                lemma_same_kind_refl(t0[j]);
            }
            assert(check_progress(t0, s0, t0, s0, 0));
            assert(s0.len() == scope_count);
            assert forall|x: int| 0 <= x < s0.len() implies #[trigger] scope_progress(t0, s0, s0, x, 0) by {
                assert(!scope_checked(t0, x, 0));
            }
        }
        let mut i: usize = 0;
        while i < n
            invariant
                self.wf(),
                old(self).wf(),
                t0 == old(self).spec_types(),
                s0 == old(self).spec_scopes(),
                self.spec_internal_path() == old(self).spec_internal_path(),
                n == t0.len(),
                i <= n,
                check_progress(t0, s0, self.spec_types(), self.spec_scopes(), i as int),
                scopes_progress(t0, s0, self.spec_scopes(), i as int),
                s0.len() <= usize::MAX,
            decreases n - i,
        {
            let r = self.resolve_type_at(i, Ghost(t0), Ghost(s0));
            if r.is_err() {
                proof {
                    if program_resolves(t0, s0) {
                        assert(type_resolves(t0, s0, i as int));
                        assert forall|t1: int, t2: int, j: int|
                            0 <= t1 < t2 < i + 1 && 0 <= j < t0.len() && #[trigger] claims(t0, t1, j) && #[trigger] claims(t0, t2, j)
                            implies super_type_of(t0[j]) is Some by {
                            assert(claims(t0, t1, j) && claims(t0, t2, j));
                        }
                    }
                }
                return r;
            }
            i = i + 1;
        }
        let ghost sc1 = self.spec_scopes();
        proof {
            assert(scope_resolves(sc1, 0) == scope_resolves(s0, 0));
        }
        let r = self.resolve_scope_of(GLOBAL_SCOPE);
        proof {
            let sc = self.spec_scopes();
            lemma_same_shape_trans(s0, sc1, sc);
            if r.is_ok() {
                lemma_lookup_shape(sc1, sc);
                assert forall|x: int| 0 <= x < s0.len() implies #[trigger] scope_resolves(sc, x) == scope_resolves(s0, x) by {
                    assert(scope_resolves(sc1, x) == scope_resolves(s0, x));
                    if x != 0 {
                        assert(sc[x] == sc1[x]);
                    }
                }
                assert forall|t: int, k: int|
                    0 <= t < t0.len() && 0 <= k < type_scopes(t0[t]).len() implies #[trigger] type_scopes(t0[t])[k] < s0.len() by {
                    assert(type_scopes(old(self).types@[t])[k] < old(self).scopes@.len());
                }
                lemma_typecheck_again(t0, s0, self.spec_types(), sc);
                lemma_lookup_shape(s0, sc1);
                assert forall|x: int| 0 <= x < s0.len() implies (if scope_checked(t0, x, n as int) || x == 0 {
                    scope_resolved(s0[x], #[trigger] sc[x], lookup_in(s0))
                } else {
                    sc[x] == s0[x]
                }) by {
                    assert(scope_progress(t0, s0, sc1, x, n as int));
                    if x == 0 {
                        if scope_checked(t0, 0, n as int) {
                            lemma_scope_resolved_trans(s0[0], sc1[0], sc[0], s0);
                        }
                    } else {
                        assert(sc[x] == sc1[x]);
                    }
                }
                assert forall|t: int| 0 <= t < t0.len() implies match #[trigger] t0[t] {
                    Type::Custom(CustomType::Object(o)) => scope_resolved(s0[o.scope as int], sc[o.scope as int], lookup_in(s0)),
                    Type::Custom(CustomType::Collectable(c)) => scope_resolved(s0[c.scope as int], sc[c.scope as int], lookup_in(s0)),
                    _ => true,
                } by {
                    if let Some(x) = checked_scope_of(t0[t]) {
                        assert(type_scopes(t0[t])[0] == x);
                        assert(type_scopes(old(self).types@[t])[0] < old(self).scopes@.len());
                        assert(scope_checked(t0, x as int, n as int));
                    }
                }
            }
        }
        r
    }
}


/// A program that resolved resolves again: every type of it still
/// resolves, each type two groups list has a super type, and the global
/// scope still resolves, so checking it a second time succeeds.
pub proof fn lemma_typecheck_again(t0: Seq<Type>, s0: Seq<Scope>, t1: Seq<Type>, s1: Seq<Scope>)
    requires
        links_valid(t0),
        links_valid(t1),
        type_names_unique(t0),
        program_resolves(t0, s0),
        types_kept(t0, t1),
        same_shape(s0, s1),
        forall|s: int| 0 <= s < s0.len() ==> #[trigger] scope_resolves(s1, s) == scope_resolves(s0, s),
        forall|t: int, b: bool|
            0 <= t < t0.len() && (t0[t] matches Type::Custom(CustomType::CollectableGroup(_))) ==> refs_resolved(
                t0,
                t1,
                list_of(t0, t, b),
                #[trigger] list_of(t1, t, b),
                list_base(b),
                t,
            ),
        forall|t: int, k: int|
            0 <= t < t0.len() && 0 <= k < type_scopes(t0[t]).len() ==> #[trigger] type_scopes(t0[t])[k] < s0.len(),
        s0.len() >= 1,
        t0.len() <= usize::MAX,
    ensures
        program_resolves(t1, s1),
{
    assert forall|i: int, b: bool|
        0 <= i < t1.len() && (t1[i] matches Type::Custom(CustomType::CollectableGroup(_))) implies refs_resolve(
            t1,
            #[trigger] list_of(t1, i, b),
            list_base(b),
            i,
        ) by {
        assert(same_kind(t0[i], t1[i]));
        assert(t0[i] matches Type::Custom(CustomType::CollectableGroup(_)));
        lemma_list_targets_in(t0, i, b);
        let now = list_of(t1, i, b);
        assert forall|k: int| 0 <= k < now.len() implies (ref_target(t1, #[trigger] now[k], list_base(b)) matches Some(j)
            && takes_super(t1, j, i)) by {
            assert(refs_resolved(t0, t1, list_of(t0, i, b), now, list_base(b), i));
            assert(now.len() == list_of(t0, i, b).len());
            let j = ref_target(t0, list_of(t0, i, b)[k], list_base(b)).unwrap();
            assert(now[k].item == Some(j as usize));
        }
    }
    assert forall|i: int| 0 <= i < t1.len() implies #[trigger] type_resolves(t1, s1, i) by {
        assert(same_kind(t0[i], t1[i]));
        assert(type_resolves(t0, s0, i));
        assert(type_scopes(t1[i]) == type_scopes(t0[i]));
        if t1[i] matches Type::Custom(CustomType::CollectableGroup(_)) {
            assert(refs_resolve(t1, list_of(t1, i, true), list_base(true), i));
            assert(refs_resolve(t1, list_of(t1, i, false), list_base(false), i));
        } else if let Type::Custom(CustomType::Collectable(c)) = t1[i] {
            assert(type_scopes(t0[i])[0] < s0.len());
            assert(scope_resolves(s1, c.scope as int) == scope_resolves(s0, c.scope as int));
        } else if let Type::Custom(CustomType::Object(o)) = t1[i] {
            assert(type_scopes(t0[i])[0] < s0.len());
            assert(scope_resolves(s1, o.scope as int) == scope_resolves(s0, o.scope as int));
        }
    }
    assert forall|ta: int, tb: int, j: int|
        0 <= ta < tb < t1.len() && 0 <= j < t1.len() && #[trigger] claims(t1, ta, j) && #[trigger] claims(t1, tb, j)
        implies super_type_of(t1[j]) is Some by {
        assert(same_kind(t0[ta], t1[ta]));
        assert(t0[ta] matches Type::Custom(CustomType::CollectableGroup(_)));
        lemma_list_targets_in(t0, ta, true);
        lemma_list_targets_in(t0, ta, false);
        let g = group_of(t1[ta]);
        let b = list_claims(t1, g.sub_groups@, BaseCustomType::CollectableGroup, j);
        let now = list_of(t1, ta, b);
        let k = choose|k: int| 0 <= k < now.len() && ref_target(t1, #[trigger] now[k], list_base(b)) == Some(j);
        assert(refs_resolved(t0, t1, list_of(t0, ta, b), now, list_base(b), ta));
        let jj = ref_target(t0, list_of(t0, ta, b)[k], list_base(b)).unwrap();
        assert(now[k].item == Some(jj as usize));
    }
    assert(scope_resolves(s1, 0) == scope_resolves(s0, 0));
}


impl Ast {
    /// The property of that name of type `t`: a collectable looks it up in
    /// its scope and the scopes around it; other types have none.
    pub fn property(&self, t: usize, name: &[u8]) -> (r: Option<VarRef>)
        requires
            self.wf(),
            t < self.spec_types().len(),
        ensures
            match self.spec_types()[t as int] {
                Type::Custom(CustomType::Collectable(c)) => r == scope_find(
                    self.spec_scopes(),
                    c.scope as int,
                    name@,
                ),
                _ => r is None,
            },
    {
        match &self.types[t] {
            Type::Custom(CustomType::Collectable(c)) => {
                proof {
                    assert(type_scopes(self.types@[t as int])[0] < self.scopes@.len());
                }
                self.scopes.find(c.scope, name)
            },
            _ => None,
        }
    }

    /// Whether type `t` is a sub type of type `other`: no type is, yet.
    pub fn is_sub_type_of(&self, t: usize, other: usize) -> (r: bool)
        ensures
            !r,
    {
        false
    }
}

} // verus!
