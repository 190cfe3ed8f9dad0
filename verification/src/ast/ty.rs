use vstd::prelude::*;
use crate::compile::token::{TokenSpan, TokenValue, bytes_eq, name_bytes};
use super::{AstErrorKind, ItemRef, ItemRefMut, is_duplicate};
use super::var::Variable;

verus! {

/// Primitive types usable as-is.
#[derive(Copy, Clone, Debug, PartialEq, Eq, PartialOrd, Ord, Hash, Structural)]
pub enum PrimitiveType {
    Void,
    Option,
    Text,
    LocalizedText,
    Integer,
    Decimal,
    DateTime,
    TimeSpan,
    Object,
    Array,
}

/// Every primitive type, in declaration order.
pub open spec fn all_primitive_types() -> Seq<PrimitiveType> {
    seq![
        PrimitiveType::Void,
        PrimitiveType::Option,
        PrimitiveType::Text,
        PrimitiveType::LocalizedText,
        PrimitiveType::Integer,
        PrimitiveType::Decimal,
        PrimitiveType::DateTime,
        PrimitiveType::TimeSpan,
        PrimitiveType::Object,
        PrimitiveType::Array,
    ]
}

/// The primitive type after `t` in declaration order, if any.
pub open spec fn next_primitive(t: PrimitiveType) -> Option<PrimitiveType> {
    match t {
        PrimitiveType::Void => Some(PrimitiveType::Option),
        PrimitiveType::Option => Some(PrimitiveType::Text),
        PrimitiveType::Text => Some(PrimitiveType::LocalizedText),
        PrimitiveType::LocalizedText => Some(PrimitiveType::Integer),
        PrimitiveType::Integer => Some(PrimitiveType::Decimal),
        PrimitiveType::Decimal => Some(PrimitiveType::DateTime),
        PrimitiveType::DateTime => Some(PrimitiveType::TimeSpan),
        PrimitiveType::TimeSpan => Some(PrimitiveType::Object),
        PrimitiveType::Object => Some(PrimitiveType::Array),
        PrimitiveType::Array => None,
    }
}

fn next_primitive_exec(t: PrimitiveType) -> (r: Option<PrimitiveType>)
    ensures
        r == next_primitive(t),
{
    match t {
        PrimitiveType::Void => Some(PrimitiveType::Option),
        PrimitiveType::Option => Some(PrimitiveType::Text),
        PrimitiveType::Text => Some(PrimitiveType::LocalizedText),
        PrimitiveType::LocalizedText => Some(PrimitiveType::Integer),
        PrimitiveType::Integer => Some(PrimitiveType::Decimal),
        PrimitiveType::Decimal => Some(PrimitiveType::DateTime),
        PrimitiveType::DateTime => Some(PrimitiveType::TimeSpan),
        PrimitiveType::TimeSpan => Some(PrimitiveType::Object),
        PrimitiveType::Object => Some(PrimitiveType::Array),
        PrimitiveType::Array => None,
    }
}

/// The position of a primitive type in declaration order.
pub open spec fn primitive_index(t: PrimitiveType) -> nat {
    match t {
        PrimitiveType::Void => 0,
        PrimitiveType::Option => 1,
        PrimitiveType::Text => 2,
        PrimitiveType::LocalizedText => 3,
        PrimitiveType::Integer => 4,
        PrimitiveType::Decimal => 5,
        PrimitiveType::DateTime => 6,
        PrimitiveType::TimeSpan => 7,
        PrimitiveType::Object => 8,
        PrimitiveType::Array => 9,
    }
}

/// The name of each primitive type.
pub open spec fn primitive_str(t: PrimitiveType) -> &'static str {
    match t {
        PrimitiveType::Void => "void",
        PrimitiveType::Option => "option",
        PrimitiveType::Text => "text",
        PrimitiveType::LocalizedText => "localized text",
        PrimitiveType::Integer => "integer",
        PrimitiveType::Decimal => "decimal",
        PrimitiveType::DateTime => "datetime",
        PrimitiveType::TimeSpan => "timespan",
        PrimitiveType::Object => "object",
        PrimitiveType::Array => "array",
    }
}

impl PrimitiveType {
    pub fn as_str(&self) -> (r: &'static str)
        ensures
            r == primitive_str(*self),
            r@ == match *self {
                PrimitiveType::Void => "void"@,
                PrimitiveType::Option => "option"@,
                PrimitiveType::Text => "text"@,
                PrimitiveType::LocalizedText => "localized text"@,
                PrimitiveType::Integer => "integer"@,
                PrimitiveType::Decimal => "decimal"@,
                PrimitiveType::DateTime => "datetime"@,
                PrimitiveType::TimeSpan => "timespan"@,
                PrimitiveType::Object => "object"@,
                PrimitiveType::Array => "array"@,
            },
    {
        match *self {
            PrimitiveType::Void => "void",
            PrimitiveType::Option => "option",
            PrimitiveType::Text => "text",
            PrimitiveType::LocalizedText => "localized text",
            PrimitiveType::Integer => "integer",
            PrimitiveType::Decimal => "decimal",
            PrimitiveType::DateTime => "datetime",
            PrimitiveType::TimeSpan => "timespan",
            PrimitiveType::Object => "object",
            PrimitiveType::Array => "array",
        }
    }

    /// Every primitive type, in declaration order, each once.
    pub fn iter() -> (r: Vec<PrimitiveType>)
        ensures
            r@ == all_primitive_types(),
    {
        let mut v: Vec<PrimitiveType> = Vec::new();
        let mut next = Some(PrimitiveType::Void);
        while next.is_some()
            invariant
                v@.len() <= 10,
                next is Some ==> v@.len() == primitive_index(next.unwrap()),
                next is None ==> v@.len() == 10,
                v@ == all_primitive_types().take(v@.len() as int),
            decreases 11 - v@.len(),
        {
            let t = next.unwrap();
            v.push(t);
            next = next_primitive_exec(t);
            assert(v@ =~= all_primitive_types().take(v@.len() as int));
        }
        assert(all_primitive_types().take(10) =~= all_primitive_types());
        v
    }
}

/// "Generic" types that form the base
/// of user defined instances.
#[derive(Copy, Clone, Debug, PartialEq, Eq, PartialOrd, Ord, Hash, Structural)]
pub enum BaseCustomType {
    Array,
    Object,
    Collectable,
    CollectableGroup,
    User,
    UserGroup,
    Event,
    RemoteEvent,
    Function,
    RemoteFunction,
    EarlyRef,
}

/// The name of each kind of custom type.
pub open spec fn base_type_name(b: BaseCustomType) -> &'static str {
    match b {
        BaseCustomType::Array => "array",
        BaseCustomType::Object => "object",
        BaseCustomType::Collectable => "collectable",
        BaseCustomType::CollectableGroup => "collectable group",
        BaseCustomType::User => "user",
        BaseCustomType::UserGroup => "user group",
        BaseCustomType::Event => "event",
        BaseCustomType::RemoteEvent => "remote event",
        BaseCustomType::Function => "function",
        BaseCustomType::RemoteFunction => "remote function",
        BaseCustomType::EarlyRef => "type reference",
    }
}

impl BaseCustomType {
    pub fn as_str(&self) -> (r: &'static str)
        ensures
            r == base_type_name(*self),
    {
        match *self {
            BaseCustomType::Array => "array",
            BaseCustomType::Object => "object",
            BaseCustomType::Collectable => "collectable",
            BaseCustomType::CollectableGroup => "collectable group",
            BaseCustomType::User => "user",
            BaseCustomType::UserGroup => "user group",
            BaseCustomType::Event => "event",
            BaseCustomType::RemoteEvent => "remote event",
            BaseCustomType::Function => "function",
            BaseCustomType::RemoteFunction => "remote function",
            BaseCustomType::EarlyRef => "type reference",
        }
    }
}

/// The name of an array type: its optional length and element type.
#[derive(Debug, Clone, PartialEq)]
pub struct ArrayName {
    pub length: Option<u32>,
    pub of_type: Option<TokenValue<Vec<u8>>>,
}

impl ArrayName {
    pub fn new(length: Option<u32>, of_type: Option<TokenValue<Vec<u8>>>) -> (r: Self)
        ensures
            r.length == length,
            r.of_type == of_type,
    {
        ArrayName { length, of_type }
    }
}

/// When auto grouping is on, you can only own
/// one instance of the collectable where
/// new awards increase the amount property.
#[derive(Copy, Clone, Debug, PartialEq, Eq, Structural)]
pub enum AutoGrouping {
    Disabled,
    /// Defaults to `None` if the type doesn't have a parent.
    Inherit,
    ByAmount,
}

/// Group membership default. An `Allow` group
/// can be joined by any type of player not in the
/// deny list. A `Deny` group can only be joined by those
/// types in the allow list.
#[derive(Copy, Clone, Debug, PartialEq, Eq, Structural)]
pub enum MembershipMode {
    Allow,
    Deny,
}

impl Default for MembershipMode {
    fn default() -> (r: Self)
        ensures
            r == MembershipMode::Allow,
    {
        MembershipMode::Allow
    }
}

#[derive(Debug, PartialEq)]
pub struct Upgrade {
    pub level: u32,
}

impl Upgrade {
    pub fn new(level: u32) -> (r: Self)
        ensures
            r.level == level,
    {
        Upgrade { level }
    }
}

#[derive(Debug, PartialEq)]
pub struct Redemption {
    pub amount: u32,
}

impl Redemption {
    pub fn new(amount: u32) -> (r: Self)
        ensures
            r.amount == amount,
    {
        Redemption { amount }
    }
}

/// The name of a primitive type, as bytes.
pub open spec fn primitive_name(t: PrimitiveType) -> Seq<u8> {
    match t {
        PrimitiveType::Void => seq![118u8, 111u8, 105u8, 100u8],
        PrimitiveType::Option => seq![111u8, 112u8, 116u8, 105u8, 111u8, 110u8],
        PrimitiveType::Text => seq![116u8, 101u8, 120u8, 116u8],
        PrimitiveType::LocalizedText => seq![108u8, 111u8, 99u8, 97u8, 108u8, 105u8, 122u8, 101u8, 100u8, 32u8, 116u8, 101u8, 120u8, 116u8],
        PrimitiveType::Integer => seq![105u8, 110u8, 116u8, 101u8, 103u8, 101u8, 114u8],
        PrimitiveType::Decimal => seq![100u8, 101u8, 99u8, 105u8, 109u8, 97u8, 108u8],
        PrimitiveType::DateTime => seq![100u8, 97u8, 116u8, 101u8, 116u8, 105u8, 109u8, 101u8],
        PrimitiveType::TimeSpan => seq![116u8, 105u8, 109u8, 101u8, 115u8, 112u8, 97u8, 110u8],
        PrimitiveType::Object => seq![111u8, 98u8, 106u8, 101u8, 99u8, 116u8],
        PrimitiveType::Array => seq![97u8, 114u8, 114u8, 97u8, 121u8],
    }
}

/// The name of a primitive type, as a vector of bytes.
pub fn primitive_name_bytes(t: PrimitiveType) -> (r: Vec<u8>)
    ensures
        r@ == primitive_name(t),
{
    match t {
        PrimitiveType::Void => {
            let r = vec![118u8, 111u8, 105u8, 100u8];
            assert(r@ =~= primitive_name(t));
            r
        },
        PrimitiveType::Option => {
            let r = vec![111u8, 112u8, 116u8, 105u8, 111u8, 110u8];
            assert(r@ =~= primitive_name(t));
            r
        },
        PrimitiveType::Text => {
            let r = vec![116u8, 101u8, 120u8, 116u8];
            assert(r@ =~= primitive_name(t));
            r
        },
        PrimitiveType::LocalizedText => {
            let r = vec![108u8, 111u8, 99u8, 97u8, 108u8, 105u8, 122u8, 101u8, 100u8, 32u8, 116u8, 101u8, 120u8, 116u8];
            assert(r@ =~= primitive_name(t));
            r
        },
        PrimitiveType::Integer => {
            let r = vec![105u8, 110u8, 116u8, 101u8, 103u8, 101u8, 114u8];
            assert(r@ =~= primitive_name(t));
            r
        },
        PrimitiveType::Decimal => {
            let r = vec![100u8, 101u8, 99u8, 105u8, 109u8, 97u8, 108u8];
            assert(r@ =~= primitive_name(t));
            r
        },
        PrimitiveType::DateTime => {
            let r = vec![100u8, 97u8, 116u8, 101u8, 116u8, 105u8, 109u8, 101u8];
            assert(r@ =~= primitive_name(t));
            r
        },
        PrimitiveType::TimeSpan => {
            let r = vec![116u8, 105u8, 109u8, 101u8, 115u8, 112u8, 97u8, 110u8];
            assert(r@ =~= primitive_name(t));
            r
        },
        PrimitiveType::Object => {
            let r = vec![111u8, 98u8, 106u8, 101u8, 99u8, 116u8];
            assert(r@ =~= primitive_name(t));
            r
        },
        PrimitiveType::Array => {
            let r = vec![97u8, 114u8, 114u8, 97u8, 121u8];
            assert(r@ =~= primitive_name(t));
            r
        },
    }
}

/// The custom type has custom properties.
pub const TC_PROPERTIES: u32 = 0b00000001;
/// The type can run custom code.
pub const TC_EXECUTE: u32 = 0b00000010;
/// Instances of the type belong to another entity. When that entity is
/// deleted, these should be too.
pub const TC_OWNED: u32 = 0b00000100;
/// This type receives notifications that cause the program to resume.
pub const TC_NOTIFY_RECEIVER: u32 = 0b00001000;
/// This type needs to set up a web endpoint to receive its notifications.
pub const TC_NOTIFY_ENDPOINT: u32 = 0b00010000;
/// This type may inherit from another type.
pub const TC_INHERIT: u32 = 0b00100000;

/// What the instances of a custom type can do, as flags.
#[derive(Debug, Copy, Clone, PartialEq, Eq, Structural)]
pub struct TypeCapability {
    pub bits: u32,
}

/// An ordered sequence of values, optionally with custom bounds
/// and a specific type.
#[derive(Debug)]
pub struct Array {
    pub name: TokenValue<Vec<u8>>,
    pub ty: Option<ItemRef>,
    pub max_length: Option<u32>,
}

impl Array {
    pub fn new(name: TokenValue<Vec<u8>>, ty: Option<ItemRef>, max_length: Option<u32>) -> (r: Self)
        ensures
            r.name == name,
            r.ty == ty,
            r.max_length == max_length,
    {
        Array { name, ty, max_length }
    }
}

#[derive(Debug)]
pub struct Object {
    pub name: TokenValue<Vec<u8>>,
    pub dynamic: bool,
    pub scope: usize,
    pub super_type: Option<usize>,
}

#[derive(Debug)]
pub struct Collectable {
    pub name: TokenValue<Vec<u8>>,
    pub parent: Option<usize>,
    pub auto_grouping: AutoGrouping,
    pub scope: usize,
    pub upgrades: Option<Vec<Upgrade>>,
    pub redemptions: Option<Vec<Redemption>>,
}

impl Collectable {
    pub fn auto_grouping(&self) -> (r: AutoGrouping)
        ensures
            r == self.auto_grouping,
    {
        self.auto_grouping
    }

    pub fn set_auto_grouping(&mut self, auto_grouping: AutoGrouping)
        ensures
            *final(self) == (Collectable { auto_grouping, ..*old(self) }),
    {
        self.auto_grouping = auto_grouping;
    }

    pub fn insert_upgrades(&mut self, upgrades: Vec<Upgrade>)
        ensures
            *final(self) == (Collectable { upgrades: Some(upgrades), ..*old(self) }),
    {
        self.upgrades = Some(upgrades);
    }

    pub fn insert_redemptions(&mut self, redemptions: Vec<Redemption>)
        ensures
            *final(self) == (Collectable { redemptions: Some(redemptions), ..*old(self) }),
    {
        self.redemptions = Some(redemptions);
    }
}

/// Whether one of the references is to a type of that name.
pub open spec fn refs_have(refs: Seq<ItemRefMut>, name: Seq<u8>) -> bool {
    exists|i: int| 0 <= i < refs.len() && name_bytes(#[trigger] refs[i].name) == name
}

/// Adds a reference unless one of the same name is there already.
fn insert_unique_ref(refs: &mut Vec<ItemRefMut>, r: ItemRefMut, what: &'static str) -> (res: Result<
    (),
    AstErrorKind,
>)
    ensures
        refs_have(old(refs)@, name_bytes(r.name)) ==> final(refs)@ == old(refs)@ && (res matches Err(
            e,
        ) && is_duplicate(e, name_bytes(r.name), r.name.spec_span(), what)),
        !refs_have(old(refs)@, name_bytes(r.name)) ==> res is Ok && final(refs)@ == old(refs)@.push(
            r,
        ),
{
    let mut i: usize = 0;
    while i < refs.len()
        invariant
            i <= refs@.len(),
            refs@ == old(refs)@,
            forall|j: int| 0 <= j < i ==> name_bytes(#[trigger] refs@[j].name) != name_bytes(r.name),
        decreases refs@.len() - i,
    {
        if bytes_eq(refs[i].name.value().as_slice(), r.name.value().as_slice()) {
            let span = r.name.span().clone();
            return Err(AstErrorKind::DuplicateDefinition(r.name.into_inner(), span, what));
        }
        i = i + 1;
    }
    refs.push(r);
    Ok(())
}

/// This is a super type for any of its collectables.
#[derive(Debug)]
pub struct CollectableGroup {
    pub name: TokenValue<Vec<u8>>,
    pub self_ref: usize,
    pub auto_grouping: AutoGrouping,
    pub parent: Option<usize>,
    pub scope: usize,
    pub collectables: Vec<ItemRefMut>,
    pub sub_groups: Vec<ItemRefMut>,
    pub upgrades: Option<Vec<Upgrade>>,
    pub redemptions: Option<Vec<Redemption>>,
}

impl CollectableGroup {
    pub fn auto_grouping(&self) -> (r: AutoGrouping)
        ensures
            r == self.auto_grouping,
    {
        self.auto_grouping
    }

    pub fn set_auto_grouping(&mut self, auto_grouping: AutoGrouping)
        ensures
            *final(self) == (CollectableGroup { auto_grouping, ..*old(self) }),
    {
        self.auto_grouping = auto_grouping;
    }

    /// Records a collectable of the group; a second of the same name is
    /// refused.
    pub fn insert_collectable_ref(&mut self, r: ItemRefMut) -> (res: Result<(), AstErrorKind>)
        ensures
            final(self).name == old(self).name,
            final(self).self_ref == old(self).self_ref,
            final(self).auto_grouping == old(self).auto_grouping,
            final(self).parent == old(self).parent,
            final(self).scope == old(self).scope,
            final(self).sub_groups == old(self).sub_groups,
            final(self).upgrades == old(self).upgrades,
            final(self).redemptions == old(self).redemptions,
            refs_have(old(self).collectables@, name_bytes(r.name)) ==> final(self).collectables@
                == old(self).collectables@ && (res matches Err(e) && is_duplicate(
                e,
                name_bytes(r.name),
                r.name.spec_span(),
                "collectable",
            )),
            !refs_have(old(self).collectables@, name_bytes(r.name)) ==> res is Ok
                && final(self).collectables@ == old(self).collectables@.push(r),
    {
        insert_unique_ref(&mut self.collectables, r, "collectable")
    }

    /// Records a sub group of the group; a second of the same name is
    /// refused.
    pub fn insert_group_ref(&mut self, r: ItemRefMut) -> (res: Result<(), AstErrorKind>)
        ensures
            final(self).name == old(self).name,
            final(self).self_ref == old(self).self_ref,
            final(self).auto_grouping == old(self).auto_grouping,
            final(self).parent == old(self).parent,
            final(self).scope == old(self).scope,
            final(self).collectables == old(self).collectables,
            final(self).upgrades == old(self).upgrades,
            final(self).redemptions == old(self).redemptions,
            refs_have(old(self).sub_groups@, name_bytes(r.name)) ==> final(self).sub_groups@
                == old(self).sub_groups@ && (res matches Err(e) && is_duplicate(
                e,
                name_bytes(r.name),
                r.name.spec_span(),
                "collectable group",
            )),
            !refs_have(old(self).sub_groups@, name_bytes(r.name)) ==> res is Ok
                && final(self).sub_groups@ == old(self).sub_groups@.push(r),
    {
        insert_unique_ref(&mut self.sub_groups, r, "collectable group")
    }

    pub fn insert_upgrades(&mut self, upgrades: Vec<Upgrade>)
        ensures
            *final(self) == (CollectableGroup { upgrades: Some(upgrades), ..*old(self) }),
    {
        self.upgrades = Some(upgrades);
    }

    pub fn insert_redemptions(&mut self, redemptions: Vec<Redemption>)
        ensures
            *final(self) == (CollectableGroup { redemptions: Some(redemptions), ..*old(self) }),
    {
        self.redemptions = Some(redemptions);
    }
}

/// For groups that cannot be combined with other groups,
/// precedence defines the behavior when a new group is added.
#[derive(Debug)]
pub enum Precedence {
    Undefined,
    Higher(ItemRef),
    Equal(ItemRef),
    Lower(ItemRef),
}

/// This is a classification, and not a super type of User. A user
/// can belong to multiple user groups, which mostly just serve to
/// establish permissions.
#[derive(Debug)]
pub struct UserGroup {
    pub name: TokenValue<Vec<u8>>,
    pub scope: usize,
    pub membership_mode: MembershipMode,
    pub except_members: Vec<ItemRef>,
    pub deny_with: Vec<ItemRef>,
    pub precedence: Precedence,
}

/// A user type: instances are the users of the game.
#[derive(Debug)]
pub struct User {
    pub name: TokenValue<Vec<u8>>,
    pub properties: Vec<Variable>,
    pub scope: usize,
}

#[derive(Debug)]
pub struct Event {
    pub name: TokenValue<Vec<u8>>,
    pub params: Vec<Variable>,
    pub scope: usize,
}

#[derive(Debug)]
pub struct RemoteEvent {
    pub name: TokenValue<Vec<u8>>,
    pub params: Vec<Variable>,
    pub scope: usize,
}

#[derive(Debug)]
pub struct Function {
    pub name: TokenValue<Vec<u8>>,
    pub param_scope: usize,
    pub local_scope: usize,
}

#[derive(Debug)]
pub struct RemoteFunction {
    pub name: TokenValue<Vec<u8>>,
    pub param_scope: usize,
}

/// A type named before its definition was read; it stands in for a type of
/// kind `real_ty`, and is an error if it is never defined.
#[derive(Debug)]
pub struct EarlyRefType {
    pub name: TokenValue<Vec<u8>>,
    pub real_ty: BaseCustomType,
    pub parent: Option<usize>,
    pub scope: usize,
}

/// A type defined by the program.
#[derive(Debug)]
pub enum CustomType {
    Array(Array),
    Object(Object),
    Collectable(Collectable),
    CollectableGroup(CollectableGroup),
    User(User),
    UserGroup(UserGroup),
    Event(Event),
    RemoteEvent(RemoteEvent),
    Function(Function),
    RemoteFunction(RemoteFunction),
    EarlyRef(EarlyRefType),
}

pub open spec fn custom_name(t: CustomType) -> TokenValue<Vec<u8>> {
    match t {
        CustomType::Array(x) => x.name,
        CustomType::Object(x) => x.name,
        CustomType::Collectable(x) => x.name,
        CustomType::CollectableGroup(x) => x.name,
        CustomType::User(x) => x.name,
        CustomType::UserGroup(x) => x.name,
        CustomType::Event(x) => x.name,
        CustomType::RemoteEvent(x) => x.name,
        CustomType::Function(x) => x.name,
        CustomType::RemoteFunction(x) => x.name,
        CustomType::EarlyRef(x) => x.name,
    }
}

pub open spec fn custom_base(t: CustomType) -> BaseCustomType {
    match t {
        CustomType::Array(_) => BaseCustomType::Array,
        CustomType::Object(_) => BaseCustomType::Object,
        CustomType::Collectable(_) => BaseCustomType::Collectable,
        CustomType::CollectableGroup(_) => BaseCustomType::CollectableGroup,
        CustomType::User(_) => BaseCustomType::User,
        CustomType::UserGroup(_) => BaseCustomType::UserGroup,
        CustomType::Event(_) => BaseCustomType::Event,
        CustomType::RemoteEvent(_) => BaseCustomType::RemoteEvent,
        CustomType::Function(_) => BaseCustomType::Function,
        CustomType::RemoteFunction(_) => BaseCustomType::RemoteFunction,
        CustomType::EarlyRef(_) => BaseCustomType::EarlyRef,
    }
}

/// The scopes that a custom type owns.
pub open spec fn custom_scopes(t: CustomType) -> Seq<usize> {
    match t {
        CustomType::Array(_) => seq![],
        CustomType::Object(x) => seq![x.scope],
        CustomType::Collectable(x) => seq![x.scope],
        CustomType::CollectableGroup(x) => seq![x.scope],
        CustomType::User(x) => seq![x.scope],
        CustomType::UserGroup(x) => seq![x.scope],
        CustomType::Event(x) => seq![x.scope],
        CustomType::RemoteEvent(x) => seq![x.scope],
        CustomType::Function(x) => seq![x.param_scope, x.local_scope],
        CustomType::RemoteFunction(x) => seq![x.param_scope],
        CustomType::EarlyRef(x) => seq![x.scope],
    }
}

/// The flags of what each kind of custom type can do.
pub open spec fn base_capabilities(b: BaseCustomType) -> u32 {
    match b {
        BaseCustomType::Array => TC_OWNED,
        BaseCustomType::Object => TC_PROPERTIES | TC_OWNED | TC_INHERIT,
        BaseCustomType::Collectable => TC_PROPERTIES | TC_OWNED | TC_INHERIT,
        BaseCustomType::CollectableGroup => TC_PROPERTIES | TC_INHERIT,
        BaseCustomType::User => TC_NOTIFY_RECEIVER | TC_PROPERTIES,
        BaseCustomType::UserGroup => TC_NOTIFY_RECEIVER,
        BaseCustomType::Event => TC_EXECUTE | TC_NOTIFY_RECEIVER | TC_NOTIFY_ENDPOINT,
        BaseCustomType::RemoteEvent => 0,
        BaseCustomType::Function => TC_EXECUTE,
        BaseCustomType::RemoteFunction => 0,
        BaseCustomType::EarlyRef => 0,
    }
}

impl CustomType {
    pub fn name(&self) -> (r: &TokenValue<Vec<u8>>)
        ensures
            *r == custom_name(*self),
    {
        match self {
            CustomType::Array(x) => &x.name,
            CustomType::Object(x) => &x.name,
            CustomType::Collectable(x) => &x.name,
            CustomType::CollectableGroup(x) => &x.name,
            CustomType::User(x) => &x.name,
            CustomType::UserGroup(x) => &x.name,
            CustomType::Event(x) => &x.name,
            CustomType::RemoteEvent(x) => &x.name,
            CustomType::Function(x) => &x.name,
            CustomType::RemoteFunction(x) => &x.name,
            CustomType::EarlyRef(x) => &x.name,
        }
    }

    pub fn base_type(&self) -> (r: BaseCustomType)
        ensures
            r == custom_base(*self),
    {
        match self {
            CustomType::Array(_) => BaseCustomType::Array,
            CustomType::Object(_) => BaseCustomType::Object,
            CustomType::Collectable(_) => BaseCustomType::Collectable,
            CustomType::CollectableGroup(_) => BaseCustomType::CollectableGroup,
            CustomType::User(_) => BaseCustomType::User,
            CustomType::UserGroup(_) => BaseCustomType::UserGroup,
            CustomType::Event(_) => BaseCustomType::Event,
            CustomType::RemoteEvent(_) => BaseCustomType::RemoteEvent,
            CustomType::Function(_) => BaseCustomType::Function,
            CustomType::RemoteFunction(_) => BaseCustomType::RemoteFunction,
            CustomType::EarlyRef(_) => BaseCustomType::EarlyRef,
        }
    }

    /// The kind of item, as named in messages.
    pub fn item_name(&self) -> (r: &'static str)
        ensures
            r == base_type_name(custom_base(*self)),
    {
        self.base_type().as_str()
    }

    pub fn capabilities(&self) -> (r: TypeCapability)
        ensures
            r.bits == base_capabilities(custom_base(*self)),
    {
        match self {
            CustomType::Array(_) => TypeCapability { bits: TC_OWNED },
            CustomType::Object(_) => TypeCapability { bits: TC_PROPERTIES | TC_OWNED | TC_INHERIT },
            CustomType::Collectable(_) => TypeCapability {
                bits: TC_PROPERTIES | TC_OWNED | TC_INHERIT,
            },
            CustomType::CollectableGroup(_) => TypeCapability { bits: TC_PROPERTIES | TC_INHERIT },
            CustomType::User(_) => TypeCapability { bits: TC_NOTIFY_RECEIVER | TC_PROPERTIES },
            CustomType::UserGroup(_) => TypeCapability { bits: TC_NOTIFY_RECEIVER },
            CustomType::Event(_) => TypeCapability {
                bits: TC_EXECUTE | TC_NOTIFY_RECEIVER | TC_NOTIFY_ENDPOINT,
            },
            CustomType::RemoteEvent(_) => TypeCapability { bits: 0 },
            CustomType::Function(_) => TypeCapability { bits: TC_EXECUTE },
            CustomType::RemoteFunction(_) => TypeCapability { bits: 0 },
            CustomType::EarlyRef(_) => TypeCapability { bits: 0 },
        }
    }
}

/// A type of the program: a primitive, with its name and scope, or a custom
/// type.
#[derive(Debug)]
pub enum Type {
    Primitive(PrimitiveType, TokenValue<Vec<u8>>, usize),
    Custom(CustomType),
}

pub open spec fn type_name_value(t: Type) -> TokenValue<Vec<u8>> {
    match t {
        Type::Primitive(_, n, _) => n,
        Type::Custom(c) => custom_name(c),
    }
}

/// The name of a type, as bytes.
pub open spec fn type_name_bytes(t: Type) -> Seq<u8> {
    name_bytes(type_name_value(t))
}

/// The scopes that a type owns.
pub open spec fn type_scopes(t: Type) -> Seq<usize> {
    match t {
        Type::Primitive(_, _, s) => seq![s],
        Type::Custom(c) => custom_scopes(c),
    }
}

impl Type {
    pub fn name(&self) -> (r: &TokenValue<Vec<u8>>)
        ensures
            *r == type_name_value(*self),
    {
        match self {
            Type::Primitive(_, n, _) => n,
            Type::Custom(c) => c.name(),
        }
    }

    pub fn is_primitive(&self) -> (r: bool)
        ensures
            r == (*self is Primitive),
    {
        match self {
            Type::Primitive(..) => true,
            Type::Custom(_) => false,
        }
    }

    pub fn as_primitive(&self) -> (r: Option<PrimitiveType>)
        ensures
            r == match *self {
                Type::Primitive(t, _, _) => Some(t),
                Type::Custom(_) => None,
            },
    {
        match self {
            Type::Primitive(t, _, _) => Some(*t),
            Type::Custom(_) => None,
        }
    }

    pub fn is_custom(&self) -> (r: bool)
        ensures
            r == (*self is Custom),
    {
        match self {
            Type::Primitive(..) => false,
            Type::Custom(_) => true,
        }
    }

    pub fn as_custom(&self) -> (r: Option<&CustomType>)
        ensures
            match *self {
                Type::Primitive(..) => r is None,
                Type::Custom(c) => r == Some(&c),
            },
    {
        match self {
            Type::Primitive(..) => None,
            Type::Custom(c) => Some(c),
        }
    }

    /// The kind of item, as named in messages.
    pub fn item_name(&self) -> (r: &'static str)
        ensures
            r@ == match *self {
                Type::Primitive(t, _, _) => primitive_str(t)@,
                Type::Custom(c) => base_type_name(custom_base(c))@,
            },
    {
        match self {
            Type::Primitive(t, _, _) => t.as_str(),
            Type::Custom(c) => c.item_name(),
        }
    }

    pub fn span(&self) -> (r: &TokenSpan)
        ensures
            *r == type_name_value(*self).spec_span(),
    {
        self.name().span()
    }
}

/// A type that may have a super type of its own kind, by index.
pub trait SubType {
    spec fn spec_super_type(&self) -> Option<usize>;

    fn super_type(&self) -> (r: Option<usize>)
        ensures
            r == self.spec_super_type();

    fn assign_super_type_internal(&mut self, super_type: usize)
        ensures
            final(self).spec_super_type() == Some(super_type);
}

impl SubType for Collectable {
    open spec fn spec_super_type(&self) -> Option<usize> {
        self.parent
    }

    fn super_type(&self) -> (r: Option<usize>) {
        self.parent
    }

    fn assign_super_type_internal(&mut self, super_type: usize)
        ensures
            *final(self) == (Collectable { parent: Some(super_type), ..*old(self) }),
    {
        self.parent = Some(super_type);
    }
}

impl SubType for CollectableGroup {
    open spec fn spec_super_type(&self) -> Option<usize> {
        self.parent
    }

    fn super_type(&self) -> (r: Option<usize>) {
        self.parent
    }

    fn assign_super_type_internal(&mut self, super_type: usize)
        ensures
            *final(self) == (CollectableGroup { parent: Some(super_type), ..*old(self) }),
    {
        self.parent = Some(super_type);
    }
}

impl SubType for Object {
    open spec fn spec_super_type(&self) -> Option<usize> {
        self.super_type
    }

    fn super_type(&self) -> (r: Option<usize>) {
        self.super_type
    }

    fn assign_super_type_internal(&mut self, super_type: usize)
        ensures
            *final(self) == (Object { super_type: Some(super_type), ..*old(self) }),
    {
        self.super_type = Some(super_type);
    }
}

} // verus!
