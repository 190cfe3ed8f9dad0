use vstd::prelude::*;
use vstd::string::StringExecFns;
use vstd::std_specs::convert::TryFromSpecImpl;
use std::convert::TryFrom;
use crate::compile::token::{Keyword, TokenKind};

verus! {

#[derive(Debug, Copy, Clone, PartialEq, Eq, Structural)]
pub enum PrefixOperator {
    Parens,
    Not,
    Neg,
    Dot,
}

impl PrefixOperator {
    pub fn str_before(&self) -> (r: &'static str)
        ensures
            r@ == match *self {
                PrefixOperator::Parens => "("@,
                PrefixOperator::Not => "!"@,
                PrefixOperator::Neg => "-"@,
                PrefixOperator::Dot => "."@,
            },
    {
        match *self {
            PrefixOperator::Parens => "(",
            PrefixOperator::Not => "!",
            PrefixOperator::Neg => "-",
            PrefixOperator::Dot => ".",
        }
    }

    pub fn str_after(&self) -> (r: Option<&'static str>)
        ensures
            *self == PrefixOperator::Parens ==> r is Some && r.unwrap()@ == ")"@,
            *self != PrefixOperator::Parens ==> r is None,
    {
        if *self == PrefixOperator::Parens {
            Some(")")
        } else {
            None
        }
    }

    pub fn precedence(&self) -> (r: u8)
        ensures
            r == prefix_precedence(*self),
    {
        match *self {
            PrefixOperator::Parens => 0,
            PrefixOperator::Dot => 8,
            _ => 6,
        }
    }
}

/// How tightly a prefix operator binds its operand.
pub open spec fn prefix_precedence(op: PrefixOperator) -> u8 {
    match op {
        PrefixOperator::Parens => 0,
        PrefixOperator::Dot => 8,
        _ => 6,
    }
}

#[derive(Debug, Copy, Clone, PartialEq, Eq, Structural)]
pub enum BinaryOperator {
    Dot,
    Mul,
    Div,
    Mod,
    Pow,
    Add,
    Sub,
    Eq,
    Ne,
    Lt,
    Le,
    Gt,
    Ge,
    And,
    Or,
}

/// How tightly a binary operator binds: `.` most, then `* / % ^`, then
/// `+ -`, then the comparisons, then `and`, then `or`.
pub open spec fn binary_precedence(op: BinaryOperator) -> u8 {
    match op {
        BinaryOperator::Dot => 7,
        BinaryOperator::Mul | BinaryOperator::Div | BinaryOperator::Mod | BinaryOperator::Pow => 5,
        BinaryOperator::Add | BinaryOperator::Sub => 4,
        BinaryOperator::Eq | BinaryOperator::Ne | BinaryOperator::Lt | BinaryOperator::Le
        | BinaryOperator::Gt | BinaryOperator::Ge => 3,
        BinaryOperator::And => 2,
        BinaryOperator::Or => 1,
    }
}

/// Binding order of the binary operators: `.` binds tightest; `*`, `/`, `%`
/// and `^` bind alike and tighter than `+` and `-`, which bind alike; these
/// bind tighter than the six comparisons, which bind alike; then `and`, then
/// `or`, loosest of all.
pub proof fn lemma_binary_precedence_order()
    ensures
        binary_precedence(BinaryOperator::Mul) == binary_precedence(BinaryOperator::Div),
        binary_precedence(BinaryOperator::Mod) == binary_precedence(BinaryOperator::Mul),
        binary_precedence(BinaryOperator::Pow) == binary_precedence(BinaryOperator::Mul),
        binary_precedence(BinaryOperator::Sub) == binary_precedence(BinaryOperator::Add),
        binary_precedence(BinaryOperator::Ne) == binary_precedence(BinaryOperator::Eq),
        binary_precedence(BinaryOperator::Lt) == binary_precedence(BinaryOperator::Eq),
        binary_precedence(BinaryOperator::Le) == binary_precedence(BinaryOperator::Eq),
        binary_precedence(BinaryOperator::Gt) == binary_precedence(BinaryOperator::Eq),
        binary_precedence(BinaryOperator::Ge) == binary_precedence(BinaryOperator::Eq),
        binary_precedence(BinaryOperator::Dot) > binary_precedence(BinaryOperator::Mul),
        binary_precedence(BinaryOperator::Mul) > binary_precedence(BinaryOperator::Add),
        binary_precedence(BinaryOperator::Add) > binary_precedence(BinaryOperator::Eq),
        binary_precedence(BinaryOperator::Eq) > binary_precedence(BinaryOperator::And),
        binary_precedence(BinaryOperator::And) > binary_precedence(BinaryOperator::Or),
        forall|op: BinaryOperator| binary_precedence(op) >= 1,
{
}

impl BinaryOperator {
    pub fn as_str(&self) -> (r: &'static str)
        ensures
            r@ == match *self {
                BinaryOperator::Dot => "."@,
                BinaryOperator::Mul => "*"@,
                BinaryOperator::Div => "/"@,
                BinaryOperator::Mod => "%"@,
                BinaryOperator::Pow => "^"@,
                BinaryOperator::Add => "+"@,
                BinaryOperator::Sub => "-"@,
                BinaryOperator::Eq => "="@,
                BinaryOperator::Ne => "!="@,
                BinaryOperator::Lt => "<"@,
                BinaryOperator::Le => "<="@,
                BinaryOperator::Gt => ">"@,
                BinaryOperator::Ge => ">="@,
                BinaryOperator::And => "and"@,
                BinaryOperator::Or => "or"@,
            },
    {
        match *self {
            BinaryOperator::Dot => ".",
            BinaryOperator::Mul => "*",
            BinaryOperator::Div => "/",
            BinaryOperator::Mod => "%",
            BinaryOperator::Pow => "^",
            BinaryOperator::Add => "+",
            BinaryOperator::Sub => "-",
            BinaryOperator::Eq => "=",
            BinaryOperator::Ne => "!=",
            BinaryOperator::Lt => "<",
            BinaryOperator::Le => "<=",
            BinaryOperator::Gt => ">",
            BinaryOperator::Ge => ">=",
            BinaryOperator::And => "and",
            BinaryOperator::Or => "or",
        }
    }

    pub fn precedence(&self) -> (r: u8)
        ensures
            r == binary_precedence(*self),
    {
        match *self {
            BinaryOperator::Dot => 7,
            BinaryOperator::Mul | BinaryOperator::Div | BinaryOperator::Mod | BinaryOperator::Pow => 5,
            BinaryOperator::Add | BinaryOperator::Sub => 4,
            BinaryOperator::Eq | BinaryOperator::Ne | BinaryOperator::Lt | BinaryOperator::Le
            | BinaryOperator::Gt | BinaryOperator::Ge => 3,
            BinaryOperator::And => 2,
            BinaryOperator::Or => 1,
        }
    }

    /// Only `^` groups to the right.
    pub fn right_recursive(&self) -> (r: bool)
        ensures
            r == (*self == BinaryOperator::Pow),
    {
        *self == BinaryOperator::Pow
    }
}

#[derive(Debug, Copy, Clone, PartialEq, Eq, Structural)]
pub enum PostfixListOperator {
    Call,
    Idx,
}

/// How tightly a call or an index binds.
pub const POSTFIX_PRECEDENCE: u8 = 7;

impl PostfixListOperator {
    pub fn str_before(&self) -> (r: &'static str)
        ensures
            r@ == match *self {
                PostfixListOperator::Call => "("@,
                PostfixListOperator::Idx => "["@,
            },
    {
        match *self {
            PostfixListOperator::Call => "(",
            PostfixListOperator::Idx => "[",
        }
    }

    pub fn str_after(&self) -> (r: &'static str)
        ensures
            r@ == match *self {
                PostfixListOperator::Call => ")"@,
                PostfixListOperator::Idx => "]"@,
            },
    {
        match *self {
            PostfixListOperator::Call => ")",
            PostfixListOperator::Idx => "]",
        }
    }
}

/// The prefix operator that a token kind starts, if any.
pub open spec fn prefix_of(kind: TokenKind) -> Option<PrefixOperator> {
    match kind {
        TokenKind::LParen => Some(PrefixOperator::Parens),
        TokenKind::Minus => Some(PrefixOperator::Neg),
        TokenKind::Exclamation => Some(PrefixOperator::Not),
        TokenKind::Dot => Some(PrefixOperator::Dot),
        _ => None,
    }
}

/// The binary operator that a token kind stands for, if any.
pub open spec fn binary_of(kind: TokenKind) -> Option<BinaryOperator> {
    match kind {
        TokenKind::Dot => Some(BinaryOperator::Dot),
        TokenKind::Multiply => Some(BinaryOperator::Mul),
        TokenKind::Divide => Some(BinaryOperator::Div),
        TokenKind::PercentSign => Some(BinaryOperator::Mod),
        TokenKind::Caret => Some(BinaryOperator::Pow),
        TokenKind::Plus => Some(BinaryOperator::Add),
        TokenKind::Minus => Some(BinaryOperator::Sub),
        TokenKind::Equal => Some(BinaryOperator::Eq),
        TokenKind::NotEqual => Some(BinaryOperator::Ne),
        TokenKind::Less => Some(BinaryOperator::Lt),
        TokenKind::LessEqual => Some(BinaryOperator::Le),
        TokenKind::Greater => Some(BinaryOperator::Gt),
        TokenKind::GreaterEqual => Some(BinaryOperator::Ge),
        TokenKind::Keyword(Keyword::And) => Some(BinaryOperator::And),
        TokenKind::Keyword(Keyword::Or) => Some(BinaryOperator::Or),
        _ => None,
    }
}

/// The postfix list operator that a token kind opens, if any.
pub open spec fn postfix_of(kind: TokenKind) -> Option<PostfixListOperator> {
    match kind {
        TokenKind::LParen => Some(PostfixListOperator::Call),
        TokenKind::LSquareBracket => Some(PostfixListOperator::Idx),
        _ => None,
    }
}

pub open spec fn option_to_result<T>(o: Option<T>) -> Result<T, ()> {
    match o {
        Some(t) => Ok(t),
        None => Err(()),
    }
}

impl<'a> TryFrom<TokenKind<'a>> for PrefixOperator {
    type Error = ();

    fn try_from(value: TokenKind<'a>) -> (r: Result<Self, ()>) {
        match value {
            TokenKind::LParen => Ok(PrefixOperator::Parens),
            TokenKind::Minus => Ok(PrefixOperator::Neg),
            TokenKind::Exclamation => Ok(PrefixOperator::Not),
            TokenKind::Dot => Ok(PrefixOperator::Dot),
            _ => Err(()),
        }
    }
}

impl<'a> TryFromSpecImpl<TokenKind<'a>> for PrefixOperator {
    open spec fn obeys_try_from_spec() -> bool {
        true
    }

    open spec fn try_from_spec(v: TokenKind<'a>) -> Result<Self, ()> {
        option_to_result(prefix_of(v))
    }
}

impl<'a> TryFrom<TokenKind<'a>> for BinaryOperator {
    type Error = ();

    fn try_from(value: TokenKind<'a>) -> (r: Result<Self, ()>) {
        match value {
            TokenKind::Dot => Ok(BinaryOperator::Dot),
            TokenKind::Multiply => Ok(BinaryOperator::Mul),
            TokenKind::Divide => Ok(BinaryOperator::Div),
            TokenKind::PercentSign => Ok(BinaryOperator::Mod),
            TokenKind::Caret => Ok(BinaryOperator::Pow),
            TokenKind::Plus => Ok(BinaryOperator::Add),
            TokenKind::Minus => Ok(BinaryOperator::Sub),
            TokenKind::Equal => Ok(BinaryOperator::Eq),
            TokenKind::NotEqual => Ok(BinaryOperator::Ne),
            TokenKind::Less => Ok(BinaryOperator::Lt),
            TokenKind::LessEqual => Ok(BinaryOperator::Le),
            TokenKind::Greater => Ok(BinaryOperator::Gt),
            TokenKind::GreaterEqual => Ok(BinaryOperator::Ge),
            TokenKind::Keyword(Keyword::And) => Ok(BinaryOperator::And),
            TokenKind::Keyword(Keyword::Or) => Ok(BinaryOperator::Or),
            _ => Err(()),
        }
    }
}

impl<'a> TryFromSpecImpl<TokenKind<'a>> for BinaryOperator {
    open spec fn obeys_try_from_spec() -> bool {
        true
    }

    open spec fn try_from_spec(v: TokenKind<'a>) -> Result<Self, ()> {
        option_to_result(binary_of(v))
    }
}

impl<'a> TryFrom<TokenKind<'a>> for PostfixListOperator {
    type Error = ();

    fn try_from(value: TokenKind<'a>) -> (r: Result<Self, ()>) {
        match value {
            TokenKind::LParen => Ok(PostfixListOperator::Call),
            TokenKind::LSquareBracket => Ok(PostfixListOperator::Idx),
            _ => Err(()),
        }
    }
}

impl<'a> TryFromSpecImpl<TokenKind<'a>> for PostfixListOperator {
    open spec fn obeys_try_from_spec() -> bool {
        true
    }

    open spec fn try_from_spec(v: TokenKind<'a>) -> Result<Self, ()> {
        option_to_result(postfix_of(v))
    }
}

impl PrefixOperator {
    /// The operator written out, with its closing bracket if it has one.
    pub fn to_string(&self) -> (r: String)
        ensures
            r@ == self.str_before_spec()@ + match self.str_after_spec() {
                Some(a) => a@,
                None => Seq::empty(),
            },
    {
        let mut s = <String as StringExecFns>::from_str(self.str_before());
        if let Some(after) = self.str_after() {
            s.append(after);
        }
        s
    }

    pub open spec fn str_before_spec(&self) -> &'static str {
        match *self {
            PrefixOperator::Parens => "(",
            PrefixOperator::Not => "!",
            PrefixOperator::Neg => "-",
            PrefixOperator::Dot => ".",
        }
    }

    pub open spec fn str_after_spec(&self) -> Option<&'static str> {
        if *self == PrefixOperator::Parens {
            Some(")")
        } else {
            None
        }
    }
}

impl BinaryOperator {
    /// The operator written out.
    pub fn to_string(&self) -> (r: String)
        ensures
            r@ == self.as_str_spec()@,
    {
        <String as StringExecFns>::from_str(self.as_str())
    }

    pub open spec fn as_str_spec(&self) -> &'static str {
        match *self {
            BinaryOperator::Dot => ".",
            BinaryOperator::Mul => "*",
            BinaryOperator::Div => "/",
            BinaryOperator::Mod => "%",
            BinaryOperator::Pow => "^",
            BinaryOperator::Add => "+",
            BinaryOperator::Sub => "-",
            BinaryOperator::Eq => "=",
            BinaryOperator::Ne => "!=",
            BinaryOperator::Lt => "<",
            BinaryOperator::Le => "<=",
            BinaryOperator::Gt => ">",
            BinaryOperator::Ge => ">=",
            BinaryOperator::And => "and",
            BinaryOperator::Or => "or",
        }
    }
}

impl PostfixListOperator {
    /// The operator's brackets written out.
    pub fn to_string(&self) -> (r: String)
        ensures
            r@ == match *self {
                PostfixListOperator::Call => "("@ + ")"@,
                PostfixListOperator::Idx => "["@ + "]"@,
            },
    {
        let mut s = <String as StringExecFns>::from_str(self.str_before());
        s.append(self.str_after());
        s
    }
}

} // verus!
