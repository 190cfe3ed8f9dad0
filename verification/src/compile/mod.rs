pub mod lexer;
pub mod parser;
pub mod parser_rd;
pub mod token;

use vstd::prelude::*;
use self::token::{TokenSpan, TokenValue};
use crate::ast::AstErrorKind;

verus! {

/// In the lexer, tokens are not created until
/// after the errors are.
#[derive(Debug)]
pub struct Placeholder<T> {
    value: Option<T>,
}

impl<T> View for Placeholder<T> {
    type V = Option<T>;

    closed spec fn view(&self) -> Option<T> {
        self.value
    }
}

impl<T> Placeholder<T> {
    pub fn new() -> (r: Self)
        ensures
            r@ == None::<T>,
    {
        Placeholder { value: None }
    }

    pub fn fill(&mut self, value: T)
        ensures
            final(self)@ == Some(value),
    {
        self.value = Some(value)
    }

    pub fn as_ref(&self) -> (r: Option<&T>)
        ensures
            r is Some <==> self@ is Some,
            r is Some ==> *r.unwrap() == self@.unwrap(),
    {
        self.value.as_ref()
    }

    pub fn as_mut(&mut self) -> (r: Option<&mut T>)
        ensures
            r is Some <==> old(self)@ is Some,
            r is Some ==> *r.unwrap() == old(self)@.unwrap(),
            final(self)@ is Some <==> old(self)@ is Some,
            r is Some ==> *final(r.unwrap()) == final(self)@.unwrap(),
    {
        self.value.as_mut()
    }

    pub fn into_inner(self) -> (r: Option<T>)
        ensures
            r == self@,
    {
        self.value
    }
}

/// What can go wrong while reading a program.
#[derive(Debug)]
pub enum ParseErrorKind {
    UnclosedString(Placeholder<TokenSpan>),
    Unexpected(TokenValue<Vec<u8>>),
    Expected(Vec<u8>, TokenValue<Vec<u8>>),
    Syntax(String, TokenSpan),
    InvalidOperation(&'static str, TokenSpan),
    IntegerOutOfRange(TokenValue<i64>, &'static str),
    Ast(AstErrorKind),
}

/// Whether an error only says that the next token was not the one looked for.
pub open spec fn is_mismatch(e: ParseErrorKind) -> bool {
    e is Unexpected || e is Expected
}

/// Optionally parse something.
/// Transforms unexpected token errors to None,
/// leaves other errors as errors.
pub fn optional<T>(res: Result<T, ParseErrorKind>) -> (r: Result<Option<T>, ParseErrorKind>)
    ensures
        match res {
            Ok(t) => r == Ok::<Option<T>, ParseErrorKind>(Some(t)),
            Err(e) => if is_mismatch(e) {
                r == Ok::<Option<T>, ParseErrorKind>(None)
            } else {
                r == Err::<Option<T>, ParseErrorKind>(e)
            },
        },
{
    match res {
        Ok(t) => Ok(Some(t)),
        Err(ParseErrorKind::Unexpected(..)) => Ok(None),
        Err(ParseErrorKind::Expected(..)) => Ok(None),
        Err(e) => Err(e),
    }
}

} // verus!
