pub mod expr;
pub mod oper;
pub mod primary;
pub mod resolve;
pub mod text;
pub mod ty;
pub mod tree;
pub mod var;

use vstd::prelude::*;
use crate::compile::token::{TokenSpan, TokenValue};

verus! {

/// What can be wrong with a program's items.
#[derive(Debug, PartialEq)]
pub enum AstErrorKind {
    InvalidOperation(&'static str),
    NotDefined(Vec<u8>, TokenSpan, &'static str),
    DuplicateDefinition(Vec<u8>, TokenSpan, &'static str),
    ValueOutOfRange(Vec<u8>, &'static str, TokenSpan),
    TypeResolution(&'static str, TokenValue<Vec<u8>>),
    ConflictingSuperType(Vec<u8>, Vec<u8>, TokenValue<Vec<u8>>),
}

/// Whether `e` says that an item of that kind and name is defined twice.
pub open spec fn is_duplicate(e: AstErrorKind, name: Seq<u8>, span: TokenSpan, what: &str) -> bool {
    e matches AstErrorKind::DuplicateDefinition(n, s, w) && n@ == name && s == span && w == what
}

/// A reference by name to a type of the program, which is found and
/// recorded by its index once the types are known.
#[derive(Debug)]
pub struct ItemRef {
    pub name: TokenValue<Vec<u8>>,
    pub item: Option<usize>,
}

impl ItemRef {
    /// A reference still to be looked up.
    pub fn new(name: TokenValue<Vec<u8>>) -> (r: Self)
        ensures
            r.name == name,
            r.item is None,
    {
        ItemRef { name, item: None }
    }

    /// A reference to the type at `item`.
    pub fn with_item(name: TokenValue<Vec<u8>>, item: usize) -> (r: Self)
        ensures
            r.name == name,
            r.item == Some(item),
    {
        ItemRef { name, item: Some(item) }
    }

    pub fn name(&self) -> (r: &TokenValue<Vec<u8>>)
        ensures
            *r == self.name,
    {
        &self.name
    }

    pub fn item(&self) -> (r: Option<usize>)
        ensures
            r == self.item,
    {
        self.item
    }

    pub fn unwrap(&self) -> (r: usize)
        requires
            self.item is Some,
        ensures
            r == self.item.unwrap(),
    {
        self.item.unwrap()
    }
}

/// A reference by name to a type of the program that the holder may change.
#[derive(Debug)]
pub struct ItemRefMut {
    pub name: TokenValue<Vec<u8>>,
    pub item: Option<usize>,
}

impl ItemRefMut {
    pub fn new(name: TokenValue<Vec<u8>>) -> (r: Self)
        ensures
            r.name == name,
            r.item is None,
    {
        ItemRefMut { name, item: None }
    }

    pub fn with_item(name: TokenValue<Vec<u8>>, item: usize) -> (r: Self)
        ensures
            r.name == name,
            r.item == Some(item),
    {
        ItemRefMut { name, item: Some(item) }
    }

    pub fn name(&self) -> (r: &TokenValue<Vec<u8>>)
        ensures
            *r == self.name,
    {
        &self.name
    }

    pub fn item(&self) -> (r: Option<usize>)
        ensures
            r == self.item,
    {
        self.item
    }

    pub fn item_mut(&self) -> (r: Option<usize>)
        ensures
            r == self.item,
    {
        self.item
    }

    pub fn unwrap(&self) -> (r: usize)
        requires
            self.item is Some,
        ensures
            r == self.item.unwrap(),
    {
        self.item.unwrap()
    }
}

} // verus!
