use vstd::prelude::*;
use std::sync::Arc;

verus! {

/// Where a token stands in its source file. Lines and columns count from 1.
#[derive(Debug, Default, PartialEq, Eq, PartialOrd, Ord)]
pub struct TokenSpan {
    pub filename: Arc<String>,
    pub line: usize,
    pub end_line: usize,
    pub start: usize,
    pub end: usize,
}

/// The span from the start of `a` to the end of `b`, when both lie in one
/// file; else `a`.
pub open spec fn join_spans(a: TokenSpan, b: TokenSpan) -> TokenSpan {
    if a.filename@ == b.filename@ {
        TokenSpan { filename: a.filename, line: a.line, end_line: b.end_line, start: a.start, end: b.end }
    } else {
        a
    }
}

impl TokenSpan {
    pub fn new(filename: Arc<String>) -> (r: Self)
        ensures
            r.filename == filename,
            r.line == 1,
            r.end_line == 1,
            r.start == 1,
            r.end == 1,
    {
        TokenSpan { filename, line: 1, end_line: 1, start: 1, end: 1 }
    }

    pub fn with_position(filename: Arc<String>, line: usize, start: usize, end: usize) -> (r: Self)
        ensures
            r.filename == filename,
            r.line == line,
            r.end_line == line,
            r.start == start,
            r.end == end,
    {
        TokenSpan { filename, line, end_line: line, start, end }
    }

    /// The span from the start of `self` to the end of `other`. Spans of
    /// different files do not join: the result is then `self` unchanged.
    pub fn from_to(&self, other: &TokenSpan) -> (r: Self)
        ensures
            r == join_spans(*self, *other),
    {
        if !string_eq(&self.filename, &other.filename) {
            return self.clone();
        }
        TokenSpan {
            filename: self.filename.clone(),
            line: self.line,
            end_line: other.end_line,
            start: self.start,
            end: other.end,
        }
    }
}

impl Clone for TokenSpan {
    fn clone(&self) -> (r: Self)
        ensures
            r == *self,
    {
        TokenSpan {
            filename: self.filename.clone(),
            line: self.line,
            end_line: self.end_line,
            start: self.start,
            end: self.end,
        }
    }
}

pub fn string_eq(a: &String, b: &String) -> (r: bool)
    ensures
        r == (a@ == b@),
{
    a.eq(b)
}

/// Compares two byte strings.
pub fn bytes_eq(a: &[u8], b: &[u8]) -> (r: bool)
    ensures
        r == (a@ == b@),
{
    if a.len() != b.len() {
        return false;
    }
    let mut i: usize = 0;
    while i < a.len()
        invariant
            a@.len() == b@.len(),
            i <= a@.len(),
            forall|j: int| 0 <= j < i ==> a@[j] == b@[j],
        decreases a@.len() - i,
    {
        if a[i] != b[i] {
            return false;
        }
        i = i + 1;
    }
    assert(a@ =~= b@);
    true
}

/// The reserved words of the language.
#[derive(Debug, Copy, Clone, Hash, PartialEq, Eq, PartialOrd, Ord, Structural)]
pub enum Keyword {
    Option,
    Text,
    Integer,
    Decimal,
    Localized,
    Datetime,
    Timespan,
    Object,
    Array,
    Remote,
    User,
    Group,
    Collectable,
    Event,
    Function,
    Yes,
    No,
    Milliseconds,
    Seconds,
    Minutes,
    Hours,
    Days,
    Weeks,
    Months,
    Years,
    Amount,
    Cost,
    Currency,
    Weighted,
    Distribution,
    Range,
    Min,
    Max,
    X,
    Property,
    Permission,
    Type,
    Tag,
    Upgrades,
    Redemptions,
    Params,
    Assert,
    Authorize,
    Award,
    Timer,
    SetStmt,
    Find,
    Notify,
    Random,
    If,
    Else,
    Do,
    End,
    Include,
    In,
    With,
    Of,
    To,
    For,
    Similar,
    Has,
    And,
    Or,
}

/// The source text of each keyword, as bytes.
pub open spec fn keyword_bytes(k: Keyword) -> Seq<u8> {
    match k {
        Keyword::Option => seq![111u8, 112u8, 116u8, 105u8, 111u8, 110u8],
        Keyword::Text => seq![116u8, 101u8, 120u8, 116u8],
        Keyword::Integer => seq![105u8, 110u8, 116u8, 101u8, 103u8, 101u8, 114u8],
        Keyword::Decimal => seq![100u8, 101u8, 99u8, 105u8, 109u8, 97u8, 108u8],
        Keyword::Localized => seq![108u8, 111u8, 99u8, 97u8, 108u8, 105u8, 122u8, 101u8, 100u8],
        Keyword::Datetime => seq![100u8, 97u8, 116u8, 101u8, 116u8, 105u8, 109u8, 101u8],
        Keyword::Timespan => seq![116u8, 105u8, 109u8, 101u8, 115u8, 112u8, 97u8, 110u8],
        Keyword::Object => seq![111u8, 98u8, 106u8, 101u8, 99u8, 116u8],
        Keyword::Array => seq![97u8, 114u8, 114u8, 97u8, 121u8],
        Keyword::Remote => seq![114u8, 101u8, 109u8, 111u8, 116u8, 101u8],
        Keyword::User => seq![117u8, 115u8, 101u8, 114u8],
        Keyword::Group => seq![103u8, 114u8, 111u8, 117u8, 112u8],
        Keyword::Collectable => seq![99u8, 111u8, 108u8, 108u8, 101u8, 99u8, 116u8, 97u8, 98u8, 108u8, 101u8],
        Keyword::Event => seq![101u8, 118u8, 101u8, 110u8, 116u8],
        Keyword::Function => seq![102u8, 117u8, 110u8, 99u8, 116u8, 105u8, 111u8, 110u8],
        Keyword::Yes => seq![121u8, 101u8, 115u8],
        Keyword::No => seq![110u8, 111u8],
        Keyword::Milliseconds => seq![109u8, 105u8, 108u8, 108u8, 105u8, 115u8, 101u8, 99u8, 111u8, 110u8, 100u8, 115u8],
        Keyword::Seconds => seq![115u8, 101u8, 99u8, 111u8, 110u8, 100u8, 115u8],
        Keyword::Minutes => seq![109u8, 105u8, 110u8, 117u8, 116u8, 101u8, 115u8],
        Keyword::Hours => seq![104u8, 111u8, 117u8, 114u8, 115u8],
        Keyword::Days => seq![100u8, 97u8, 121u8, 115u8],
        Keyword::Weeks => seq![119u8, 101u8, 101u8, 107u8, 115u8],
        Keyword::Months => seq![109u8, 111u8, 110u8, 116u8, 104u8, 115u8],
        Keyword::Years => seq![121u8, 101u8, 97u8, 114u8, 115u8],
        Keyword::Amount => seq![97u8, 109u8, 111u8, 117u8, 110u8, 116u8],
        Keyword::Cost => seq![99u8, 111u8, 115u8, 116u8],
        Keyword::Currency => seq![99u8, 117u8, 114u8, 114u8, 101u8, 110u8, 99u8, 121u8],
        Keyword::Weighted => seq![119u8, 101u8, 105u8, 103u8, 104u8, 116u8, 101u8, 100u8],
        Keyword::Distribution => seq![100u8, 105u8, 115u8, 116u8, 114u8, 105u8, 98u8, 117u8, 116u8, 105u8, 111u8, 110u8],
        Keyword::Range => seq![114u8, 97u8, 110u8, 103u8, 101u8],
        Keyword::Min => seq![109u8, 105u8, 110u8],
        Keyword::Max => seq![109u8, 97u8, 120u8],
        Keyword::X => seq![120u8],
        Keyword::Property => seq![112u8, 114u8, 111u8, 112u8, 101u8, 114u8, 116u8, 121u8],
        Keyword::Permission => seq![112u8, 101u8, 114u8, 109u8, 105u8, 115u8, 115u8, 105u8, 111u8, 110u8],
        Keyword::Type => seq![116u8, 121u8, 112u8, 101u8],
        Keyword::Tag => seq![116u8, 97u8, 103u8],
        Keyword::Upgrades => seq![117u8, 112u8, 103u8, 114u8, 97u8, 100u8, 101u8, 115u8],
        Keyword::Redemptions => seq![114u8, 101u8, 100u8, 101u8, 109u8, 112u8, 116u8, 105u8, 111u8, 110u8, 115u8],
        Keyword::Params => seq![112u8, 97u8, 114u8, 97u8, 109u8, 115u8],
        Keyword::Assert => seq![97u8, 115u8, 115u8, 101u8, 114u8, 116u8],
        Keyword::Authorize => seq![97u8, 117u8, 116u8, 104u8, 111u8, 114u8, 105u8, 122u8, 101u8],
        Keyword::Award => seq![97u8, 119u8, 97u8, 114u8, 100u8],
        Keyword::Timer => seq![116u8, 105u8, 109u8, 101u8, 114u8],
        Keyword::SetStmt => seq![115u8, 101u8, 116u8],
        Keyword::Find => seq![102u8, 105u8, 110u8, 100u8],
        Keyword::Notify => seq![110u8, 111u8, 116u8, 105u8, 102u8, 121u8],
        Keyword::Random => seq![114u8, 97u8, 110u8, 100u8, 111u8, 109u8],
        Keyword::If => seq![105u8, 102u8],
        Keyword::Else => seq![101u8, 108u8, 115u8, 101u8],
        Keyword::Do => seq![100u8, 111u8],
        Keyword::End => seq![101u8, 110u8, 100u8],
        Keyword::Include => seq![105u8, 110u8, 99u8, 108u8, 117u8, 100u8, 101u8],
        Keyword::In => seq![105u8, 110u8],
        Keyword::With => seq![119u8, 105u8, 116u8, 104u8],
        Keyword::Of => seq![111u8, 102u8],
        Keyword::To => seq![116u8, 111u8],
        Keyword::For => seq![102u8, 111u8, 114u8],
        Keyword::Similar => seq![115u8, 105u8, 109u8, 105u8, 108u8, 97u8, 114u8],
        Keyword::Has => seq![104u8, 97u8, 115u8],
        Keyword::And => seq![97u8, 110u8, 100u8],
        Keyword::Or => seq![111u8, 114u8],
    }
}

/// The keyword whose text is `s`, if any.
pub open spec fn keyword_of(s: Seq<u8>) -> Option<Keyword> {
    if s == keyword_bytes(Keyword::Option) {
        Some(Keyword::Option)
    }
    else if s == keyword_bytes(Keyword::Text) {
        Some(Keyword::Text)
    }
    else if s == keyword_bytes(Keyword::Integer) {
        Some(Keyword::Integer)
    }
    else if s == keyword_bytes(Keyword::Decimal) {
        Some(Keyword::Decimal)
    }
    else if s == keyword_bytes(Keyword::Localized) {
        Some(Keyword::Localized)
    }
    else if s == keyword_bytes(Keyword::Datetime) {
        Some(Keyword::Datetime)
    }
    else if s == keyword_bytes(Keyword::Timespan) {
        Some(Keyword::Timespan)
    }
    else if s == keyword_bytes(Keyword::Object) {
        Some(Keyword::Object)
    }
    else if s == keyword_bytes(Keyword::Array) {
        Some(Keyword::Array)
    }
    else if s == keyword_bytes(Keyword::Remote) {
        Some(Keyword::Remote)
    }
    else if s == keyword_bytes(Keyword::User) {
        Some(Keyword::User)
    }
    else if s == keyword_bytes(Keyword::Group) {
        Some(Keyword::Group)
    }
    else if s == keyword_bytes(Keyword::Collectable) {
        Some(Keyword::Collectable)
    }
    else if s == keyword_bytes(Keyword::Event) {
        Some(Keyword::Event)
    }
    else if s == keyword_bytes(Keyword::Function) {
        Some(Keyword::Function)
    }
    else if s == keyword_bytes(Keyword::Yes) {
        Some(Keyword::Yes)
    }
    else if s == keyword_bytes(Keyword::No) {
        Some(Keyword::No)
    }
    else if s == keyword_bytes(Keyword::Milliseconds) {
        Some(Keyword::Milliseconds)
    }
    else if s == keyword_bytes(Keyword::Seconds) {
        Some(Keyword::Seconds)
    }
    else if s == keyword_bytes(Keyword::Minutes) {
        Some(Keyword::Minutes)
    }
    else if s == keyword_bytes(Keyword::Hours) {
        Some(Keyword::Hours)
    }
    else if s == keyword_bytes(Keyword::Days) {
        Some(Keyword::Days)
    }
    else if s == keyword_bytes(Keyword::Weeks) {
        Some(Keyword::Weeks)
    }
    else if s == keyword_bytes(Keyword::Months) {
        Some(Keyword::Months)
    }
    else if s == keyword_bytes(Keyword::Years) {
        Some(Keyword::Years)
    }
    else if s == keyword_bytes(Keyword::Amount) {
        Some(Keyword::Amount)
    }
    else if s == keyword_bytes(Keyword::Cost) {
        Some(Keyword::Cost)
    }
    else if s == keyword_bytes(Keyword::Currency) {
        Some(Keyword::Currency)
    }
    else if s == keyword_bytes(Keyword::Weighted) {
        Some(Keyword::Weighted)
    }
    else if s == keyword_bytes(Keyword::Distribution) {
        Some(Keyword::Distribution)
    }
    else if s == keyword_bytes(Keyword::Range) {
        Some(Keyword::Range)
    }
    else if s == keyword_bytes(Keyword::Min) {
        Some(Keyword::Min)
    }
    else if s == keyword_bytes(Keyword::Max) {
        Some(Keyword::Max)
    }
    else if s == keyword_bytes(Keyword::X) {
        Some(Keyword::X)
    }
    else if s == keyword_bytes(Keyword::Property) {
        Some(Keyword::Property)
    }
    else if s == keyword_bytes(Keyword::Permission) {
        Some(Keyword::Permission)
    }
    else if s == keyword_bytes(Keyword::Type) {
        Some(Keyword::Type)
    }
    else if s == keyword_bytes(Keyword::Tag) {
        Some(Keyword::Tag)
    }
    else if s == keyword_bytes(Keyword::Upgrades) {
        Some(Keyword::Upgrades)
    }
    else if s == keyword_bytes(Keyword::Redemptions) {
        Some(Keyword::Redemptions)
    }
    else if s == keyword_bytes(Keyword::Params) {
        Some(Keyword::Params)
    }
    else if s == keyword_bytes(Keyword::Assert) {
        Some(Keyword::Assert)
    }
    else if s == keyword_bytes(Keyword::Authorize) {
        Some(Keyword::Authorize)
    }
    else if s == keyword_bytes(Keyword::Award) {
        Some(Keyword::Award)
    }
    else if s == keyword_bytes(Keyword::Timer) {
        Some(Keyword::Timer)
    }
    else if s == keyword_bytes(Keyword::SetStmt) {
        Some(Keyword::SetStmt)
    }
    else if s == keyword_bytes(Keyword::Find) {
        Some(Keyword::Find)
    }
    else if s == keyword_bytes(Keyword::Notify) {
        Some(Keyword::Notify)
    }
    else if s == keyword_bytes(Keyword::Random) {
        Some(Keyword::Random)
    }
    else if s == keyword_bytes(Keyword::If) {
        Some(Keyword::If)
    }
    else if s == keyword_bytes(Keyword::Else) {
        Some(Keyword::Else)
    }
    else if s == keyword_bytes(Keyword::Do) {
        Some(Keyword::Do)
    }
    else if s == keyword_bytes(Keyword::End) {
        Some(Keyword::End)
    }
    else if s == keyword_bytes(Keyword::Include) {
        Some(Keyword::Include)
    }
    else if s == keyword_bytes(Keyword::In) {
        Some(Keyword::In)
    }
    else if s == keyword_bytes(Keyword::With) {
        Some(Keyword::With)
    }
    else if s == keyword_bytes(Keyword::Of) {
        Some(Keyword::Of)
    }
    else if s == keyword_bytes(Keyword::To) {
        Some(Keyword::To)
    }
    else if s == keyword_bytes(Keyword::For) {
        Some(Keyword::For)
    }
    else if s == keyword_bytes(Keyword::Similar) {
        Some(Keyword::Similar)
    }
    else if s == keyword_bytes(Keyword::Has) {
        Some(Keyword::Has)
    }
    else if s == keyword_bytes(Keyword::And) {
        Some(Keyword::And)
    }
    else if s == keyword_bytes(Keyword::Or) {
        Some(Keyword::Or)
    }
 else {
        None
    }
}

impl Keyword {
    pub fn as_str(&self) -> (r: &'static str)
        ensures
            r@ == keyword_bytes(*self).map_values(|b: u8| b as char),
    {
        match *self {
            Keyword::Option => {
                proof {
                    reveal_strlit("option");
                    assert(keyword_bytes(*self).map_values(|b: u8| b as char) =~= "option"@);
                }
                "option"
            },
            Keyword::Text => {
                proof {
                    reveal_strlit("text");
                    assert(keyword_bytes(*self).map_values(|b: u8| b as char) =~= "text"@);
                }
                "text"
            },
            Keyword::Integer => {
                proof {
                    reveal_strlit("integer");
                    assert(keyword_bytes(*self).map_values(|b: u8| b as char) =~= "integer"@);
                }
                "integer"
            },
            Keyword::Decimal => {
                proof {
                    reveal_strlit("decimal");
                    assert(keyword_bytes(*self).map_values(|b: u8| b as char) =~= "decimal"@);
                }
                "decimal"
            },
            Keyword::Localized => {
                proof {
                    reveal_strlit("localized");
                    assert(keyword_bytes(*self).map_values(|b: u8| b as char) =~= "localized"@);
                }
                "localized"
            },
            Keyword::Datetime => {
                proof {
                    reveal_strlit("datetime");
                    assert(keyword_bytes(*self).map_values(|b: u8| b as char) =~= "datetime"@);
                }
                "datetime"
            },
            Keyword::Timespan => {
                proof {
                    reveal_strlit("timespan");
                    assert(keyword_bytes(*self).map_values(|b: u8| b as char) =~= "timespan"@);
                }
                "timespan"
            },
            Keyword::Object => {
                proof {
                    reveal_strlit("object");
                    assert(keyword_bytes(*self).map_values(|b: u8| b as char) =~= "object"@);
                }
                "object"
            },
            Keyword::Array => {
                proof {
                    reveal_strlit("array");
                    assert(keyword_bytes(*self).map_values(|b: u8| b as char) =~= "array"@);
                }
                "array"
            },
            Keyword::Remote => {
                proof {
                    reveal_strlit("remote");
                    assert(keyword_bytes(*self).map_values(|b: u8| b as char) =~= "remote"@);
                }
                "remote"
            },
            Keyword::User => {
                proof {
                    reveal_strlit("user");
                    assert(keyword_bytes(*self).map_values(|b: u8| b as char) =~= "user"@);
                }
                "user"
            },
            Keyword::Group => {
                proof {
                    reveal_strlit("group");
                    assert(keyword_bytes(*self).map_values(|b: u8| b as char) =~= "group"@);
                }
                "group"
            },
            Keyword::Collectable => {
                proof {
                    reveal_strlit("collectable");
                    assert(keyword_bytes(*self).map_values(|b: u8| b as char) =~= "collectable"@);
                }
                "collectable"
            },
            Keyword::Event => {
                proof {
                    reveal_strlit("event");
                    assert(keyword_bytes(*self).map_values(|b: u8| b as char) =~= "event"@);
                }
                "event"
            },
            Keyword::Function => {
                proof {
                    reveal_strlit("function");
                    assert(keyword_bytes(*self).map_values(|b: u8| b as char) =~= "function"@);
                }
                "function"
            },
            Keyword::Yes => {
                proof {
                    reveal_strlit("yes");
                    assert(keyword_bytes(*self).map_values(|b: u8| b as char) =~= "yes"@);
                }
                "yes"
            },
            Keyword::No => {
                proof {
                    reveal_strlit("no");
                    assert(keyword_bytes(*self).map_values(|b: u8| b as char) =~= "no"@);
                }
                "no"
            },
            Keyword::Milliseconds => {
                proof {
                    reveal_strlit("milliseconds");
                    assert(keyword_bytes(*self).map_values(|b: u8| b as char) =~= "milliseconds"@);
                }
                "milliseconds"
            },
            Keyword::Seconds => {
                proof {
                    reveal_strlit("seconds");
                    assert(keyword_bytes(*self).map_values(|b: u8| b as char) =~= "seconds"@);
                }
                "seconds"
            },
            Keyword::Minutes => {
                proof {
                    reveal_strlit("minutes");
                    assert(keyword_bytes(*self).map_values(|b: u8| b as char) =~= "minutes"@);
                }
                "minutes"
            },
            Keyword::Hours => {
                proof {
                    reveal_strlit("hours");
                    assert(keyword_bytes(*self).map_values(|b: u8| b as char) =~= "hours"@);
                }
                "hours"
            },
            Keyword::Days => {
                proof {
                    reveal_strlit("days");
                    assert(keyword_bytes(*self).map_values(|b: u8| b as char) =~= "days"@);
                }
                "days"
            },
            Keyword::Weeks => {
                proof {
                    reveal_strlit("weeks");
                    assert(keyword_bytes(*self).map_values(|b: u8| b as char) =~= "weeks"@);
                }
                "weeks"
            },
            Keyword::Months => {
                proof {
                    reveal_strlit("months");
                    assert(keyword_bytes(*self).map_values(|b: u8| b as char) =~= "months"@);
                }
                "months"
            },
            Keyword::Years => {
                proof {
                    reveal_strlit("years");
                    assert(keyword_bytes(*self).map_values(|b: u8| b as char) =~= "years"@);
                }
                "years"
            },
            Keyword::Amount => {
                proof {
                    reveal_strlit("amount");
                    assert(keyword_bytes(*self).map_values(|b: u8| b as char) =~= "amount"@);
                }
                "amount"
            },
            Keyword::Cost => {
                proof {
                    reveal_strlit("cost");
                    assert(keyword_bytes(*self).map_values(|b: u8| b as char) =~= "cost"@);
                }
                "cost"
            },
            Keyword::Currency => {
                proof {
                    reveal_strlit("currency");
                    assert(keyword_bytes(*self).map_values(|b: u8| b as char) =~= "currency"@);
                }
                "currency"
            },
            Keyword::Weighted => {
                proof {
                    reveal_strlit("weighted");
                    assert(keyword_bytes(*self).map_values(|b: u8| b as char) =~= "weighted"@);
                }
                "weighted"
            },
            Keyword::Distribution => {
                proof {
                    reveal_strlit("distribution");
                    assert(keyword_bytes(*self).map_values(|b: u8| b as char) =~= "distribution"@);
                }
                "distribution"
            },
            Keyword::Range => {
                proof {
                    reveal_strlit("range");
                    assert(keyword_bytes(*self).map_values(|b: u8| b as char) =~= "range"@);
                }
                "range"
            },
            Keyword::Min => {
                proof {
                    reveal_strlit("min");
                    assert(keyword_bytes(*self).map_values(|b: u8| b as char) =~= "min"@);
                }
                "min"
            },
            Keyword::Max => {
                proof {
                    reveal_strlit("max");
                    assert(keyword_bytes(*self).map_values(|b: u8| b as char) =~= "max"@);
                }
                "max"
            },
            Keyword::X => {
                proof {
                    reveal_strlit("x");
                    assert(keyword_bytes(*self).map_values(|b: u8| b as char) =~= "x"@);
                }
                "x"
            },
            Keyword::Property => {
                proof {
                    reveal_strlit("property");
                    assert(keyword_bytes(*self).map_values(|b: u8| b as char) =~= "property"@);
                }
                "property"
            },
            Keyword::Permission => {
                proof {
                    reveal_strlit("permission");
                    assert(keyword_bytes(*self).map_values(|b: u8| b as char) =~= "permission"@);
                }
                "permission"
            },
            Keyword::Type => {
                proof {
                    reveal_strlit("type");
                    assert(keyword_bytes(*self).map_values(|b: u8| b as char) =~= "type"@);
                }
                "type"
            },
            Keyword::Tag => {
                proof {
                    reveal_strlit("tag");
                    assert(keyword_bytes(*self).map_values(|b: u8| b as char) =~= "tag"@);
                }
                "tag"
            },
            Keyword::Upgrades => {
                proof {
                    reveal_strlit("upgrades");
                    assert(keyword_bytes(*self).map_values(|b: u8| b as char) =~= "upgrades"@);
                }
                "upgrades"
            },
            Keyword::Redemptions => {
                proof {
                    reveal_strlit("redemptions");
                    assert(keyword_bytes(*self).map_values(|b: u8| b as char) =~= "redemptions"@);
                }
                "redemptions"
            },
            Keyword::Params => {
                proof {
                    reveal_strlit("params");
                    assert(keyword_bytes(*self).map_values(|b: u8| b as char) =~= "params"@);
                }
                "params"
            },
            Keyword::Assert => {
                proof {
                    reveal_strlit("assert");
                    assert(keyword_bytes(*self).map_values(|b: u8| b as char) =~= "assert"@);
                }
                "assert"
            },
            Keyword::Authorize => {
                proof {
                    reveal_strlit("authorize");
                    assert(keyword_bytes(*self).map_values(|b: u8| b as char) =~= "authorize"@);
                }
                "authorize"
            },
            Keyword::Award => {
                proof {
                    reveal_strlit("award");
                    assert(keyword_bytes(*self).map_values(|b: u8| b as char) =~= "award"@);
                }
                "award"
            },
            Keyword::Timer => {
                proof {
                    reveal_strlit("timer");
                    assert(keyword_bytes(*self).map_values(|b: u8| b as char) =~= "timer"@);
                }
                "timer"
            },
            Keyword::SetStmt => {
                proof {
                    reveal_strlit("set");
                    assert(keyword_bytes(*self).map_values(|b: u8| b as char) =~= "set"@);
                }
                "set"
            },
            Keyword::Find => {
                proof {
                    reveal_strlit("find");
                    assert(keyword_bytes(*self).map_values(|b: u8| b as char) =~= "find"@);
                }
                "find"
            },
            Keyword::Notify => {
                proof {
                    reveal_strlit("notify");
                    assert(keyword_bytes(*self).map_values(|b: u8| b as char) =~= "notify"@);
                }
                "notify"
            },
            Keyword::Random => {
                proof {
                    reveal_strlit("random");
                    assert(keyword_bytes(*self).map_values(|b: u8| b as char) =~= "random"@);
                }
                "random"
            },
            Keyword::If => {
                proof {
                    reveal_strlit("if");
                    assert(keyword_bytes(*self).map_values(|b: u8| b as char) =~= "if"@);
                }
                "if"
            },
            Keyword::Else => {
                proof {
                    reveal_strlit("else");
                    assert(keyword_bytes(*self).map_values(|b: u8| b as char) =~= "else"@);
                }
                "else"
            },
            Keyword::Do => {
                proof {
                    reveal_strlit("do");
                    assert(keyword_bytes(*self).map_values(|b: u8| b as char) =~= "do"@);
                }
                "do"
            },
            Keyword::End => {
                proof {
                    reveal_strlit("end");
                    assert(keyword_bytes(*self).map_values(|b: u8| b as char) =~= "end"@);
                }
                "end"
            },
            Keyword::Include => {
                proof {
                    reveal_strlit("include");
                    assert(keyword_bytes(*self).map_values(|b: u8| b as char) =~= "include"@);
                }
                "include"
            },
            Keyword::In => {
                proof {
                    reveal_strlit("in");
                    assert(keyword_bytes(*self).map_values(|b: u8| b as char) =~= "in"@);
                }
                "in"
            },
            Keyword::With => {
                proof {
                    reveal_strlit("with");
                    assert(keyword_bytes(*self).map_values(|b: u8| b as char) =~= "with"@);
                }
                "with"
            },
            Keyword::Of => {
                proof {
                    reveal_strlit("of");
                    assert(keyword_bytes(*self).map_values(|b: u8| b as char) =~= "of"@);
                }
                "of"
            },
            Keyword::To => {
                proof {
                    reveal_strlit("to");
                    assert(keyword_bytes(*self).map_values(|b: u8| b as char) =~= "to"@);
                }
                "to"
            },
            Keyword::For => {
                proof {
                    reveal_strlit("for");
                    assert(keyword_bytes(*self).map_values(|b: u8| b as char) =~= "for"@);
                }
                "for"
            },
            Keyword::Similar => {
                proof {
                    reveal_strlit("similar");
                    assert(keyword_bytes(*self).map_values(|b: u8| b as char) =~= "similar"@);
                }
                "similar"
            },
            Keyword::Has => {
                proof {
                    reveal_strlit("has");
                    assert(keyword_bytes(*self).map_values(|b: u8| b as char) =~= "has"@);
                }
                "has"
            },
            Keyword::And => {
                proof {
                    reveal_strlit("and");
                    assert(keyword_bytes(*self).map_values(|b: u8| b as char) =~= "and"@);
                }
                "and"
            },
            Keyword::Or => {
                proof {
                    reveal_strlit("or");
                    assert(keyword_bytes(*self).map_values(|b: u8| b as char) =~= "or"@);
                }
                "or"
            },
        }
    }
}

/// Reading a keyword's spelling gives the keyword back.
#[verifier::rlimit(100)]
#[verifier::spinoff_prover]
pub proof fn lemma_keyword_roundtrip(k: Keyword)
    ensures
        keyword_of(keyword_bytes(k)) == Some(k),
{
    match k {
        Keyword::Option => {
            assert(keyword_of(keyword_bytes(Keyword::Option)) == Some(Keyword::Option));
        },
        Keyword::Text => {
            assert(keyword_of(keyword_bytes(Keyword::Text)) == Some(Keyword::Text));
        },
        Keyword::Integer => {
            assert(keyword_of(keyword_bytes(Keyword::Integer)) == Some(Keyword::Integer));
        },
        Keyword::Decimal => {
            assert(keyword_bytes(Keyword::Integer)[0] != keyword_bytes(Keyword::Decimal)[0]);
            assert(keyword_of(keyword_bytes(Keyword::Decimal)) == Some(Keyword::Decimal));
        },
        Keyword::Localized => {
            assert(keyword_of(keyword_bytes(Keyword::Localized)) == Some(Keyword::Localized));
        },
        Keyword::Datetime => {
            assert(keyword_of(keyword_bytes(Keyword::Datetime)) == Some(Keyword::Datetime));
        },
        Keyword::Timespan => {
            assert(keyword_bytes(Keyword::Datetime)[0] != keyword_bytes(Keyword::Timespan)[0]);
            assert(keyword_of(keyword_bytes(Keyword::Timespan)) == Some(Keyword::Timespan));
        },
        Keyword::Object => {
            assert(keyword_bytes(Keyword::Option)[1] != keyword_bytes(Keyword::Object)[1]);
            assert(keyword_of(keyword_bytes(Keyword::Object)) == Some(Keyword::Object));
        },
        Keyword::Array => {
            assert(keyword_of(keyword_bytes(Keyword::Array)) == Some(Keyword::Array));
        },
        Keyword::Remote => {
            assert(keyword_bytes(Keyword::Option)[0] != keyword_bytes(Keyword::Remote)[0]);
            assert(keyword_bytes(Keyword::Object)[0] != keyword_bytes(Keyword::Remote)[0]);
            assert(keyword_of(keyword_bytes(Keyword::Remote)) == Some(Keyword::Remote));
        },
        Keyword::User => {
            assert(keyword_bytes(Keyword::Text)[0] != keyword_bytes(Keyword::User)[0]);
            assert(keyword_of(keyword_bytes(Keyword::User)) == Some(Keyword::User));
        },
        Keyword::Group => {
            assert(keyword_bytes(Keyword::Array)[0] != keyword_bytes(Keyword::Group)[0]);
            assert(keyword_of(keyword_bytes(Keyword::Group)) == Some(Keyword::Group));
        },
        Keyword::Collectable => {
            assert(keyword_of(keyword_bytes(Keyword::Collectable)) == Some(Keyword::Collectable));
        },
        Keyword::Event => {
            assert(keyword_bytes(Keyword::Array)[0] != keyword_bytes(Keyword::Event)[0]);
            assert(keyword_bytes(Keyword::Group)[0] != keyword_bytes(Keyword::Event)[0]);
            assert(keyword_of(keyword_bytes(Keyword::Event)) == Some(Keyword::Event));
        },
        Keyword::Function => {
            assert(keyword_bytes(Keyword::Datetime)[0] != keyword_bytes(Keyword::Function)[0]);
            assert(keyword_bytes(Keyword::Timespan)[0] != keyword_bytes(Keyword::Function)[0]);
            assert(keyword_of(keyword_bytes(Keyword::Function)) == Some(Keyword::Function));
        },
        Keyword::Yes => {
            assert(keyword_of(keyword_bytes(Keyword::Yes)) == Some(Keyword::Yes));
        },
        Keyword::No => {
            assert(keyword_of(keyword_bytes(Keyword::No)) == Some(Keyword::No));
        },
        Keyword::Milliseconds => {
            assert(keyword_of(keyword_bytes(Keyword::Milliseconds)) == Some(Keyword::Milliseconds));
        },
        Keyword::Seconds => {
            assert(keyword_bytes(Keyword::Integer)[0] != keyword_bytes(Keyword::Seconds)[0]);
            assert(keyword_bytes(Keyword::Decimal)[0] != keyword_bytes(Keyword::Seconds)[0]);
            assert(keyword_of(keyword_bytes(Keyword::Seconds)) == Some(Keyword::Seconds));
        },
        Keyword::Minutes => {
            assert(keyword_bytes(Keyword::Integer)[0] != keyword_bytes(Keyword::Minutes)[0]);
            assert(keyword_bytes(Keyword::Decimal)[0] != keyword_bytes(Keyword::Minutes)[0]);
            assert(keyword_bytes(Keyword::Seconds)[0] != keyword_bytes(Keyword::Minutes)[0]);
            assert(keyword_of(keyword_bytes(Keyword::Minutes)) == Some(Keyword::Minutes));
        },
        Keyword::Hours => {
            assert(keyword_bytes(Keyword::Array)[0] != keyword_bytes(Keyword::Hours)[0]);
            assert(keyword_bytes(Keyword::Group)[0] != keyword_bytes(Keyword::Hours)[0]);
            assert(keyword_bytes(Keyword::Event)[0] != keyword_bytes(Keyword::Hours)[0]);
            assert(keyword_of(keyword_bytes(Keyword::Hours)) == Some(Keyword::Hours));
        },
        Keyword::Days => {
            assert(keyword_bytes(Keyword::Text)[0] != keyword_bytes(Keyword::Days)[0]);
            assert(keyword_bytes(Keyword::User)[0] != keyword_bytes(Keyword::Days)[0]);
            assert(keyword_of(keyword_bytes(Keyword::Days)) == Some(Keyword::Days));
        },
        Keyword::Weeks => {
            assert(keyword_bytes(Keyword::Array)[0] != keyword_bytes(Keyword::Weeks)[0]);
            assert(keyword_bytes(Keyword::Group)[0] != keyword_bytes(Keyword::Weeks)[0]);
            assert(keyword_bytes(Keyword::Event)[0] != keyword_bytes(Keyword::Weeks)[0]);
            assert(keyword_bytes(Keyword::Hours)[0] != keyword_bytes(Keyword::Weeks)[0]);
            assert(keyword_of(keyword_bytes(Keyword::Weeks)) == Some(Keyword::Weeks));
        },
        Keyword::Months => {
            assert(keyword_bytes(Keyword::Option)[0] != keyword_bytes(Keyword::Months)[0]);
            assert(keyword_bytes(Keyword::Object)[0] != keyword_bytes(Keyword::Months)[0]);
            assert(keyword_bytes(Keyword::Remote)[0] != keyword_bytes(Keyword::Months)[0]);
            assert(keyword_of(keyword_bytes(Keyword::Months)) == Some(Keyword::Months));
        },
        Keyword::Years => {
            assert(keyword_bytes(Keyword::Array)[0] != keyword_bytes(Keyword::Years)[0]);
            assert(keyword_bytes(Keyword::Group)[0] != keyword_bytes(Keyword::Years)[0]);
            assert(keyword_bytes(Keyword::Event)[0] != keyword_bytes(Keyword::Years)[0]);
            assert(keyword_bytes(Keyword::Hours)[0] != keyword_bytes(Keyword::Years)[0]);
            assert(keyword_bytes(Keyword::Weeks)[0] != keyword_bytes(Keyword::Years)[0]);
            assert(keyword_of(keyword_bytes(Keyword::Years)) == Some(Keyword::Years));
        },
        Keyword::Amount => {
            assert(keyword_bytes(Keyword::Option)[0] != keyword_bytes(Keyword::Amount)[0]);
            assert(keyword_bytes(Keyword::Object)[0] != keyword_bytes(Keyword::Amount)[0]);
            assert(keyword_bytes(Keyword::Remote)[0] != keyword_bytes(Keyword::Amount)[0]);
            assert(keyword_bytes(Keyword::Months)[0] != keyword_bytes(Keyword::Amount)[0]);
            assert(keyword_of(keyword_bytes(Keyword::Amount)) == Some(Keyword::Amount));
        },
        Keyword::Cost => {
            assert(keyword_bytes(Keyword::Text)[0] != keyword_bytes(Keyword::Cost)[0]);
            assert(keyword_bytes(Keyword::User)[0] != keyword_bytes(Keyword::Cost)[0]);
            assert(keyword_bytes(Keyword::Days)[0] != keyword_bytes(Keyword::Cost)[0]);
            assert(keyword_of(keyword_bytes(Keyword::Cost)) == Some(Keyword::Cost));
        },
        Keyword::Currency => {
            assert(keyword_bytes(Keyword::Datetime)[0] != keyword_bytes(Keyword::Currency)[0]);
            assert(keyword_bytes(Keyword::Timespan)[0] != keyword_bytes(Keyword::Currency)[0]);
            assert(keyword_bytes(Keyword::Function)[0] != keyword_bytes(Keyword::Currency)[0]);
            assert(keyword_of(keyword_bytes(Keyword::Currency)) == Some(Keyword::Currency));
        },
        Keyword::Weighted => {
            assert(keyword_bytes(Keyword::Datetime)[0] != keyword_bytes(Keyword::Weighted)[0]);
            assert(keyword_bytes(Keyword::Timespan)[0] != keyword_bytes(Keyword::Weighted)[0]);
            assert(keyword_bytes(Keyword::Function)[0] != keyword_bytes(Keyword::Weighted)[0]);
            assert(keyword_bytes(Keyword::Currency)[0] != keyword_bytes(Keyword::Weighted)[0]);
            assert(keyword_of(keyword_bytes(Keyword::Weighted)) == Some(Keyword::Weighted));
        },
        Keyword::Distribution => {
            assert(keyword_bytes(Keyword::Milliseconds)[0] != keyword_bytes(Keyword::Distribution)[0]);
            assert(keyword_of(keyword_bytes(Keyword::Distribution)) == Some(Keyword::Distribution));
        },
        Keyword::Range => {
            assert(keyword_bytes(Keyword::Array)[0] != keyword_bytes(Keyword::Range)[0]);
            assert(keyword_bytes(Keyword::Group)[0] != keyword_bytes(Keyword::Range)[0]);
            assert(keyword_bytes(Keyword::Event)[0] != keyword_bytes(Keyword::Range)[0]);
            assert(keyword_bytes(Keyword::Hours)[0] != keyword_bytes(Keyword::Range)[0]);
            assert(keyword_bytes(Keyword::Weeks)[0] != keyword_bytes(Keyword::Range)[0]);
            assert(keyword_bytes(Keyword::Years)[0] != keyword_bytes(Keyword::Range)[0]);
            assert(keyword_of(keyword_bytes(Keyword::Range)) == Some(Keyword::Range));
        },
        Keyword::Min => {
            assert(keyword_bytes(Keyword::Yes)[0] != keyword_bytes(Keyword::Min)[0]);
            assert(keyword_bytes(Keyword::Option).len() == 6 && keyword_bytes(Keyword::Min).len() == 3);
            assert(keyword_bytes(Keyword::Text).len() == 4 && keyword_bytes(Keyword::Min).len() == 3);
            assert(keyword_bytes(Keyword::Integer).len() == 7 && keyword_bytes(Keyword::Min).len() == 3);
            assert(keyword_bytes(Keyword::Decimal).len() == 7 && keyword_bytes(Keyword::Min).len() == 3);
            assert(keyword_bytes(Keyword::Localized).len() == 9 && keyword_bytes(Keyword::Min).len() == 3);
            assert(keyword_bytes(Keyword::Datetime).len() == 8 && keyword_bytes(Keyword::Min).len() == 3);
            assert(keyword_bytes(Keyword::Timespan).len() == 8 && keyword_bytes(Keyword::Min).len() == 3);
            assert(keyword_bytes(Keyword::Object).len() == 6 && keyword_bytes(Keyword::Min).len() == 3);
            assert(keyword_bytes(Keyword::Array).len() == 5 && keyword_bytes(Keyword::Min).len() == 3);
            assert(keyword_bytes(Keyword::Remote).len() == 6 && keyword_bytes(Keyword::Min).len() == 3);
            assert(keyword_bytes(Keyword::User).len() == 4 && keyword_bytes(Keyword::Min).len() == 3);
            assert(keyword_bytes(Keyword::Group).len() == 5 && keyword_bytes(Keyword::Min).len() == 3);
            assert(keyword_bytes(Keyword::Collectable).len() == 11 && keyword_bytes(Keyword::Min).len() == 3);
            assert(keyword_bytes(Keyword::Event).len() == 5 && keyword_bytes(Keyword::Min).len() == 3);
            assert(keyword_bytes(Keyword::Function).len() == 8 && keyword_bytes(Keyword::Min).len() == 3);
            assert(keyword_bytes(Keyword::No).len() == 2 && keyword_bytes(Keyword::Min).len() == 3);
            assert(keyword_bytes(Keyword::Milliseconds).len() == 12 && keyword_bytes(Keyword::Min).len() == 3);
            assert(keyword_bytes(Keyword::Seconds).len() == 7 && keyword_bytes(Keyword::Min).len() == 3);
            assert(keyword_bytes(Keyword::Minutes).len() == 7 && keyword_bytes(Keyword::Min).len() == 3);
            assert(keyword_bytes(Keyword::Hours).len() == 5 && keyword_bytes(Keyword::Min).len() == 3);
            assert(keyword_bytes(Keyword::Days).len() == 4 && keyword_bytes(Keyword::Min).len() == 3);
            assert(keyword_bytes(Keyword::Weeks).len() == 5 && keyword_bytes(Keyword::Min).len() == 3);
            assert(keyword_bytes(Keyword::Months).len() == 6 && keyword_bytes(Keyword::Min).len() == 3);
            assert(keyword_bytes(Keyword::Years).len() == 5 && keyword_bytes(Keyword::Min).len() == 3);
            assert(keyword_bytes(Keyword::Amount).len() == 6 && keyword_bytes(Keyword::Min).len() == 3);
            assert(keyword_bytes(Keyword::Cost).len() == 4 && keyword_bytes(Keyword::Min).len() == 3);
            assert(keyword_bytes(Keyword::Currency).len() == 8 && keyword_bytes(Keyword::Min).len() == 3);
            assert(keyword_bytes(Keyword::Weighted).len() == 8 && keyword_bytes(Keyword::Min).len() == 3);
            assert(keyword_bytes(Keyword::Distribution).len() == 12 && keyword_bytes(Keyword::Min).len() == 3);
            assert(keyword_bytes(Keyword::Range).len() == 5 && keyword_bytes(Keyword::Min).len() == 3);
            assert(keyword_of(keyword_bytes(Keyword::Min)) == Some(Keyword::Min));
        },
        Keyword::Max => {
            assert(keyword_bytes(Keyword::Yes)[0] != keyword_bytes(Keyword::Max)[0]);
            assert(keyword_bytes(Keyword::Min)[1] != keyword_bytes(Keyword::Max)[1]);
            assert(keyword_of(keyword_bytes(Keyword::Max)) == Some(Keyword::Max));
        },
        Keyword::X => {
            assert(keyword_of(keyword_bytes(Keyword::X)) == Some(Keyword::X));
        },
        Keyword::Property => {
            assert(keyword_bytes(Keyword::Datetime)[0] != keyword_bytes(Keyword::Property)[0]);
            assert(keyword_bytes(Keyword::Timespan)[0] != keyword_bytes(Keyword::Property)[0]);
            assert(keyword_bytes(Keyword::Function)[0] != keyword_bytes(Keyword::Property)[0]);
            assert(keyword_bytes(Keyword::Currency)[0] != keyword_bytes(Keyword::Property)[0]);
            assert(keyword_bytes(Keyword::Weighted)[0] != keyword_bytes(Keyword::Property)[0]);
            assert(keyword_of(keyword_bytes(Keyword::Property)) == Some(Keyword::Property));
        },
        Keyword::Permission => {
            assert(keyword_of(keyword_bytes(Keyword::Permission)) == Some(Keyword::Permission));
        },
        Keyword::Type => {
            assert(keyword_bytes(Keyword::Text)[1] != keyword_bytes(Keyword::Type)[1]);
            assert(keyword_bytes(Keyword::User)[0] != keyword_bytes(Keyword::Type)[0]);
            assert(keyword_bytes(Keyword::Days)[0] != keyword_bytes(Keyword::Type)[0]);
            assert(keyword_bytes(Keyword::Cost)[0] != keyword_bytes(Keyword::Type)[0]);
            assert(keyword_of(keyword_bytes(Keyword::Type)) == Some(Keyword::Type));
        },
        Keyword::Tag => {
            assert(keyword_bytes(Keyword::Yes)[0] != keyword_bytes(Keyword::Tag)[0]);
            assert(keyword_bytes(Keyword::Min)[0] != keyword_bytes(Keyword::Tag)[0]);
            assert(keyword_bytes(Keyword::Max)[0] != keyword_bytes(Keyword::Tag)[0]);
            assert(keyword_of(keyword_bytes(Keyword::Tag)) == Some(Keyword::Tag));
        },
        Keyword::Upgrades => {
            assert(keyword_bytes(Keyword::Datetime)[0] != keyword_bytes(Keyword::Upgrades)[0]);
            assert(keyword_bytes(Keyword::Timespan)[0] != keyword_bytes(Keyword::Upgrades)[0]);
            assert(keyword_bytes(Keyword::Function)[0] != keyword_bytes(Keyword::Upgrades)[0]);
            assert(keyword_bytes(Keyword::Currency)[0] != keyword_bytes(Keyword::Upgrades)[0]);
            assert(keyword_bytes(Keyword::Weighted)[0] != keyword_bytes(Keyword::Upgrades)[0]);
            assert(keyword_bytes(Keyword::Property)[0] != keyword_bytes(Keyword::Upgrades)[0]);
            assert(keyword_of(keyword_bytes(Keyword::Upgrades)) == Some(Keyword::Upgrades));
        },
        Keyword::Redemptions => {
            assert(keyword_bytes(Keyword::Collectable)[0] != keyword_bytes(Keyword::Redemptions)[0]);
            assert(keyword_of(keyword_bytes(Keyword::Redemptions)) == Some(Keyword::Redemptions));
        },
        Keyword::Params => {
            assert(keyword_bytes(Keyword::Option)[0] != keyword_bytes(Keyword::Params)[0]);
            assert(keyword_bytes(Keyword::Object)[0] != keyword_bytes(Keyword::Params)[0]);
            assert(keyword_bytes(Keyword::Remote)[0] != keyword_bytes(Keyword::Params)[0]);
            assert(keyword_bytes(Keyword::Months)[0] != keyword_bytes(Keyword::Params)[0]);
            assert(keyword_bytes(Keyword::Amount)[0] != keyword_bytes(Keyword::Params)[0]);
            assert(keyword_of(keyword_bytes(Keyword::Params)) == Some(Keyword::Params));
        },
        Keyword::Assert => {
            assert(keyword_bytes(Keyword::Option)[0] != keyword_bytes(Keyword::Assert)[0]);
            assert(keyword_bytes(Keyword::Object)[0] != keyword_bytes(Keyword::Assert)[0]);
            assert(keyword_bytes(Keyword::Remote)[0] != keyword_bytes(Keyword::Assert)[0]);
            assert(keyword_bytes(Keyword::Months)[0] != keyword_bytes(Keyword::Assert)[0]);
            assert(keyword_bytes(Keyword::Amount)[1] != keyword_bytes(Keyword::Assert)[1]);
            assert(keyword_bytes(Keyword::Params)[0] != keyword_bytes(Keyword::Assert)[0]);
            assert(keyword_of(keyword_bytes(Keyword::Assert)) == Some(Keyword::Assert));
        },
        Keyword::Authorize => {
            assert(keyword_bytes(Keyword::Localized)[0] != keyword_bytes(Keyword::Authorize)[0]);
            assert(keyword_of(keyword_bytes(Keyword::Authorize)) == Some(Keyword::Authorize));
        },
        Keyword::Award => {
            assert(keyword_bytes(Keyword::Array)[1] != keyword_bytes(Keyword::Award)[1]);
            assert(keyword_bytes(Keyword::Group)[0] != keyword_bytes(Keyword::Award)[0]);
            assert(keyword_bytes(Keyword::Event)[0] != keyword_bytes(Keyword::Award)[0]);
            assert(keyword_bytes(Keyword::Hours)[0] != keyword_bytes(Keyword::Award)[0]);
            assert(keyword_bytes(Keyword::Weeks)[0] != keyword_bytes(Keyword::Award)[0]);
            assert(keyword_bytes(Keyword::Years)[0] != keyword_bytes(Keyword::Award)[0]);
            assert(keyword_bytes(Keyword::Range)[0] != keyword_bytes(Keyword::Award)[0]);
            assert(keyword_of(keyword_bytes(Keyword::Award)) == Some(Keyword::Award));
        },
        Keyword::Timer => {
            assert(keyword_bytes(Keyword::Array)[0] != keyword_bytes(Keyword::Timer)[0]);
            assert(keyword_bytes(Keyword::Group)[0] != keyword_bytes(Keyword::Timer)[0]);
            assert(keyword_bytes(Keyword::Event)[0] != keyword_bytes(Keyword::Timer)[0]);
            assert(keyword_bytes(Keyword::Hours)[0] != keyword_bytes(Keyword::Timer)[0]);
            assert(keyword_bytes(Keyword::Weeks)[0] != keyword_bytes(Keyword::Timer)[0]);
            assert(keyword_bytes(Keyword::Years)[0] != keyword_bytes(Keyword::Timer)[0]);
            assert(keyword_bytes(Keyword::Range)[0] != keyword_bytes(Keyword::Timer)[0]);
            assert(keyword_bytes(Keyword::Award)[0] != keyword_bytes(Keyword::Timer)[0]);
            assert(keyword_of(keyword_bytes(Keyword::Timer)) == Some(Keyword::Timer));
        },
        Keyword::SetStmt => {
            assert(keyword_bytes(Keyword::Yes)[0] != keyword_bytes(Keyword::SetStmt)[0]);
            assert(keyword_bytes(Keyword::Min)[0] != keyword_bytes(Keyword::SetStmt)[0]);
            assert(keyword_bytes(Keyword::Max)[0] != keyword_bytes(Keyword::SetStmt)[0]);
            assert(keyword_bytes(Keyword::Tag)[0] != keyword_bytes(Keyword::SetStmt)[0]);
            assert(keyword_of(keyword_bytes(Keyword::SetStmt)) == Some(Keyword::SetStmt));
        },
        Keyword::Find => {
            assert(keyword_bytes(Keyword::Text)[0] != keyword_bytes(Keyword::Find)[0]);
            assert(keyword_bytes(Keyword::User)[0] != keyword_bytes(Keyword::Find)[0]);
            assert(keyword_bytes(Keyword::Days)[0] != keyword_bytes(Keyword::Find)[0]);
            assert(keyword_bytes(Keyword::Cost)[0] != keyword_bytes(Keyword::Find)[0]);
            assert(keyword_bytes(Keyword::Type)[0] != keyword_bytes(Keyword::Find)[0]);
            assert(keyword_of(keyword_bytes(Keyword::Find)) == Some(Keyword::Find));
        },
        Keyword::Notify => {
            assert(keyword_bytes(Keyword::Option)[0] != keyword_bytes(Keyword::Notify)[0]);
            assert(keyword_bytes(Keyword::Object)[0] != keyword_bytes(Keyword::Notify)[0]);
            assert(keyword_bytes(Keyword::Remote)[0] != keyword_bytes(Keyword::Notify)[0]);
            assert(keyword_bytes(Keyword::Months)[0] != keyword_bytes(Keyword::Notify)[0]);
            assert(keyword_bytes(Keyword::Amount)[0] != keyword_bytes(Keyword::Notify)[0]);
            assert(keyword_bytes(Keyword::Params)[0] != keyword_bytes(Keyword::Notify)[0]);
            assert(keyword_bytes(Keyword::Assert)[0] != keyword_bytes(Keyword::Notify)[0]);
            assert(keyword_bytes(Keyword::Text).len() == 4 && keyword_bytes(Keyword::Notify).len() == 6);
            assert(keyword_bytes(Keyword::Integer).len() == 7 && keyword_bytes(Keyword::Notify).len() == 6);
            assert(keyword_bytes(Keyword::Decimal).len() == 7 && keyword_bytes(Keyword::Notify).len() == 6);
            assert(keyword_bytes(Keyword::Localized).len() == 9 && keyword_bytes(Keyword::Notify).len() == 6);
            assert(keyword_bytes(Keyword::Datetime).len() == 8 && keyword_bytes(Keyword::Notify).len() == 6);
            assert(keyword_bytes(Keyword::Timespan).len() == 8 && keyword_bytes(Keyword::Notify).len() == 6);
            assert(keyword_bytes(Keyword::Array).len() == 5 && keyword_bytes(Keyword::Notify).len() == 6);
            assert(keyword_bytes(Keyword::User).len() == 4 && keyword_bytes(Keyword::Notify).len() == 6);
            assert(keyword_bytes(Keyword::Group).len() == 5 && keyword_bytes(Keyword::Notify).len() == 6);
            assert(keyword_bytes(Keyword::Collectable).len() == 11 && keyword_bytes(Keyword::Notify).len() == 6);
            assert(keyword_bytes(Keyword::Event).len() == 5 && keyword_bytes(Keyword::Notify).len() == 6);
            assert(keyword_bytes(Keyword::Function).len() == 8 && keyword_bytes(Keyword::Notify).len() == 6);
            assert(keyword_bytes(Keyword::Yes).len() == 3 && keyword_bytes(Keyword::Notify).len() == 6);
            assert(keyword_bytes(Keyword::No).len() == 2 && keyword_bytes(Keyword::Notify).len() == 6);
            assert(keyword_bytes(Keyword::Milliseconds).len() == 12 && keyword_bytes(Keyword::Notify).len() == 6);
            assert(keyword_bytes(Keyword::Seconds).len() == 7 && keyword_bytes(Keyword::Notify).len() == 6);
            assert(keyword_bytes(Keyword::Minutes).len() == 7 && keyword_bytes(Keyword::Notify).len() == 6);
            assert(keyword_bytes(Keyword::Hours).len() == 5 && keyword_bytes(Keyword::Notify).len() == 6);
            assert(keyword_bytes(Keyword::Days).len() == 4 && keyword_bytes(Keyword::Notify).len() == 6);
            assert(keyword_bytes(Keyword::Weeks).len() == 5 && keyword_bytes(Keyword::Notify).len() == 6);
            assert(keyword_bytes(Keyword::Years).len() == 5 && keyword_bytes(Keyword::Notify).len() == 6);
            assert(keyword_bytes(Keyword::Cost).len() == 4 && keyword_bytes(Keyword::Notify).len() == 6);
            assert(keyword_bytes(Keyword::Currency).len() == 8 && keyword_bytes(Keyword::Notify).len() == 6);
            assert(keyword_bytes(Keyword::Weighted).len() == 8 && keyword_bytes(Keyword::Notify).len() == 6);
            assert(keyword_bytes(Keyword::Distribution).len() == 12 && keyword_bytes(Keyword::Notify).len() == 6);
            assert(keyword_bytes(Keyword::Range).len() == 5 && keyword_bytes(Keyword::Notify).len() == 6);
            assert(keyword_bytes(Keyword::Min).len() == 3 && keyword_bytes(Keyword::Notify).len() == 6);
            assert(keyword_bytes(Keyword::Max).len() == 3 && keyword_bytes(Keyword::Notify).len() == 6);
            assert(keyword_bytes(Keyword::X).len() == 1 && keyword_bytes(Keyword::Notify).len() == 6);
            assert(keyword_bytes(Keyword::Property).len() == 8 && keyword_bytes(Keyword::Notify).len() == 6);
            assert(keyword_bytes(Keyword::Permission).len() == 10 && keyword_bytes(Keyword::Notify).len() == 6);
            assert(keyword_bytes(Keyword::Type).len() == 4 && keyword_bytes(Keyword::Notify).len() == 6);
            assert(keyword_bytes(Keyword::Tag).len() == 3 && keyword_bytes(Keyword::Notify).len() == 6);
            assert(keyword_bytes(Keyword::Upgrades).len() == 8 && keyword_bytes(Keyword::Notify).len() == 6);
            assert(keyword_bytes(Keyword::Redemptions).len() == 11 && keyword_bytes(Keyword::Notify).len() == 6);
            assert(keyword_bytes(Keyword::Authorize).len() == 9 && keyword_bytes(Keyword::Notify).len() == 6);
            assert(keyword_bytes(Keyword::Award).len() == 5 && keyword_bytes(Keyword::Notify).len() == 6);
            assert(keyword_bytes(Keyword::Timer).len() == 5 && keyword_bytes(Keyword::Notify).len() == 6);
            assert(keyword_bytes(Keyword::SetStmt).len() == 3 && keyword_bytes(Keyword::Notify).len() == 6);
            assert(keyword_bytes(Keyword::Find).len() == 4 && keyword_bytes(Keyword::Notify).len() == 6);
            assert(keyword_of(keyword_bytes(Keyword::Notify)) == Some(Keyword::Notify));
        },
        Keyword::Random => {
            assert(keyword_bytes(Keyword::Option)[0] != keyword_bytes(Keyword::Random)[0]);
            assert(keyword_bytes(Keyword::Object)[0] != keyword_bytes(Keyword::Random)[0]);
            assert(keyword_bytes(Keyword::Remote)[1] != keyword_bytes(Keyword::Random)[1]);
            assert(keyword_bytes(Keyword::Months)[0] != keyword_bytes(Keyword::Random)[0]);
            assert(keyword_bytes(Keyword::Amount)[0] != keyword_bytes(Keyword::Random)[0]);
            assert(keyword_bytes(Keyword::Params)[0] != keyword_bytes(Keyword::Random)[0]);
            assert(keyword_bytes(Keyword::Assert)[0] != keyword_bytes(Keyword::Random)[0]);
            assert(keyword_bytes(Keyword::Notify)[0] != keyword_bytes(Keyword::Random)[0]);
            assert(keyword_of(keyword_bytes(Keyword::Random)) == Some(Keyword::Random));
        },
        Keyword::If => {
            assert(keyword_bytes(Keyword::No)[0] != keyword_bytes(Keyword::If)[0]);
            assert(keyword_of(keyword_bytes(Keyword::If)) == Some(Keyword::If));
        },
        Keyword::Else => {
            assert(keyword_bytes(Keyword::Text)[0] != keyword_bytes(Keyword::Else)[0]);
            assert(keyword_bytes(Keyword::User)[0] != keyword_bytes(Keyword::Else)[0]);
            assert(keyword_bytes(Keyword::Days)[0] != keyword_bytes(Keyword::Else)[0]);
            assert(keyword_bytes(Keyword::Cost)[0] != keyword_bytes(Keyword::Else)[0]);
            assert(keyword_bytes(Keyword::Type)[0] != keyword_bytes(Keyword::Else)[0]);
            assert(keyword_bytes(Keyword::Find)[0] != keyword_bytes(Keyword::Else)[0]);
            assert(keyword_of(keyword_bytes(Keyword::Else)) == Some(Keyword::Else));
        },
        Keyword::Do => {
            assert(keyword_bytes(Keyword::No)[0] != keyword_bytes(Keyword::Do)[0]);
            assert(keyword_bytes(Keyword::If)[0] != keyword_bytes(Keyword::Do)[0]);
            assert(keyword_of(keyword_bytes(Keyword::Do)) == Some(Keyword::Do));
        },
        Keyword::End => {
            assert(keyword_bytes(Keyword::Yes)[0] != keyword_bytes(Keyword::End)[0]);
            assert(keyword_bytes(Keyword::Min)[0] != keyword_bytes(Keyword::End)[0]);
            assert(keyword_bytes(Keyword::Max)[0] != keyword_bytes(Keyword::End)[0]);
            assert(keyword_bytes(Keyword::Tag)[0] != keyword_bytes(Keyword::End)[0]);
            assert(keyword_bytes(Keyword::SetStmt)[0] != keyword_bytes(Keyword::End)[0]);
            assert(keyword_of(keyword_bytes(Keyword::End)) == Some(Keyword::End));
        },
        Keyword::Include => {
            assert(keyword_bytes(Keyword::Integer)[2] != keyword_bytes(Keyword::Include)[2]);
            assert(keyword_bytes(Keyword::Decimal)[0] != keyword_bytes(Keyword::Include)[0]);
            assert(keyword_bytes(Keyword::Seconds)[0] != keyword_bytes(Keyword::Include)[0]);
            assert(keyword_bytes(Keyword::Minutes)[0] != keyword_bytes(Keyword::Include)[0]);
            assert(keyword_of(keyword_bytes(Keyword::Include)) == Some(Keyword::Include));
        },
        Keyword::In => {
            assert(keyword_bytes(Keyword::No)[0] != keyword_bytes(Keyword::In)[0]);
            assert(keyword_bytes(Keyword::If)[1] != keyword_bytes(Keyword::In)[1]);
            assert(keyword_bytes(Keyword::Do)[0] != keyword_bytes(Keyword::In)[0]);
            assert(keyword_bytes(Keyword::Option).len() == 6 && keyword_bytes(Keyword::In).len() == 2);
            assert(keyword_bytes(Keyword::Text).len() == 4 && keyword_bytes(Keyword::In).len() == 2);
            assert(keyword_bytes(Keyword::Integer).len() == 7 && keyword_bytes(Keyword::In).len() == 2);
            assert(keyword_bytes(Keyword::Decimal).len() == 7 && keyword_bytes(Keyword::In).len() == 2);
            assert(keyword_bytes(Keyword::Localized).len() == 9 && keyword_bytes(Keyword::In).len() == 2);
            assert(keyword_bytes(Keyword::Datetime).len() == 8 && keyword_bytes(Keyword::In).len() == 2);
            assert(keyword_bytes(Keyword::Timespan).len() == 8 && keyword_bytes(Keyword::In).len() == 2);
            assert(keyword_bytes(Keyword::Object).len() == 6 && keyword_bytes(Keyword::In).len() == 2);
            assert(keyword_bytes(Keyword::Array).len() == 5 && keyword_bytes(Keyword::In).len() == 2);
            assert(keyword_bytes(Keyword::Remote).len() == 6 && keyword_bytes(Keyword::In).len() == 2);
            assert(keyword_bytes(Keyword::User).len() == 4 && keyword_bytes(Keyword::In).len() == 2);
            assert(keyword_bytes(Keyword::Group).len() == 5 && keyword_bytes(Keyword::In).len() == 2);
            assert(keyword_bytes(Keyword::Collectable).len() == 11 && keyword_bytes(Keyword::In).len() == 2);
            assert(keyword_bytes(Keyword::Event).len() == 5 && keyword_bytes(Keyword::In).len() == 2);
            assert(keyword_bytes(Keyword::Function).len() == 8 && keyword_bytes(Keyword::In).len() == 2);
            assert(keyword_bytes(Keyword::Yes).len() == 3 && keyword_bytes(Keyword::In).len() == 2);
            assert(keyword_bytes(Keyword::Milliseconds).len() == 12 && keyword_bytes(Keyword::In).len() == 2);
            assert(keyword_bytes(Keyword::Seconds).len() == 7 && keyword_bytes(Keyword::In).len() == 2);
            assert(keyword_bytes(Keyword::Minutes).len() == 7 && keyword_bytes(Keyword::In).len() == 2);
            assert(keyword_bytes(Keyword::Hours).len() == 5 && keyword_bytes(Keyword::In).len() == 2);
            assert(keyword_bytes(Keyword::Days).len() == 4 && keyword_bytes(Keyword::In).len() == 2);
            assert(keyword_bytes(Keyword::Weeks).len() == 5 && keyword_bytes(Keyword::In).len() == 2);
            assert(keyword_bytes(Keyword::Months).len() == 6 && keyword_bytes(Keyword::In).len() == 2);
            assert(keyword_bytes(Keyword::Years).len() == 5 && keyword_bytes(Keyword::In).len() == 2);
            assert(keyword_bytes(Keyword::Amount).len() == 6 && keyword_bytes(Keyword::In).len() == 2);
            assert(keyword_bytes(Keyword::Cost).len() == 4 && keyword_bytes(Keyword::In).len() == 2);
            assert(keyword_bytes(Keyword::Currency).len() == 8 && keyword_bytes(Keyword::In).len() == 2);
            assert(keyword_bytes(Keyword::Weighted).len() == 8 && keyword_bytes(Keyword::In).len() == 2);
            assert(keyword_bytes(Keyword::Distribution).len() == 12 && keyword_bytes(Keyword::In).len() == 2);
            assert(keyword_bytes(Keyword::Range).len() == 5 && keyword_bytes(Keyword::In).len() == 2);
            assert(keyword_bytes(Keyword::Min).len() == 3 && keyword_bytes(Keyword::In).len() == 2);
            assert(keyword_bytes(Keyword::Max).len() == 3 && keyword_bytes(Keyword::In).len() == 2);
            assert(keyword_bytes(Keyword::X).len() == 1 && keyword_bytes(Keyword::In).len() == 2);
            assert(keyword_bytes(Keyword::Property).len() == 8 && keyword_bytes(Keyword::In).len() == 2);
            assert(keyword_bytes(Keyword::Permission).len() == 10 && keyword_bytes(Keyword::In).len() == 2);
            assert(keyword_bytes(Keyword::Type).len() == 4 && keyword_bytes(Keyword::In).len() == 2);
            assert(keyword_bytes(Keyword::Tag).len() == 3 && keyword_bytes(Keyword::In).len() == 2);
            assert(keyword_bytes(Keyword::Upgrades).len() == 8 && keyword_bytes(Keyword::In).len() == 2);
            assert(keyword_bytes(Keyword::Redemptions).len() == 11 && keyword_bytes(Keyword::In).len() == 2);
            assert(keyword_bytes(Keyword::Params).len() == 6 && keyword_bytes(Keyword::In).len() == 2);
            assert(keyword_bytes(Keyword::Assert).len() == 6 && keyword_bytes(Keyword::In).len() == 2);
            assert(keyword_bytes(Keyword::Authorize).len() == 9 && keyword_bytes(Keyword::In).len() == 2);
            assert(keyword_bytes(Keyword::Award).len() == 5 && keyword_bytes(Keyword::In).len() == 2);
            assert(keyword_bytes(Keyword::Timer).len() == 5 && keyword_bytes(Keyword::In).len() == 2);
            assert(keyword_bytes(Keyword::SetStmt).len() == 3 && keyword_bytes(Keyword::In).len() == 2);
            assert(keyword_bytes(Keyword::Find).len() == 4 && keyword_bytes(Keyword::In).len() == 2);
            assert(keyword_bytes(Keyword::Notify).len() == 6 && keyword_bytes(Keyword::In).len() == 2);
            assert(keyword_bytes(Keyword::Random).len() == 6 && keyword_bytes(Keyword::In).len() == 2);
            assert(keyword_bytes(Keyword::Else).len() == 4 && keyword_bytes(Keyword::In).len() == 2);
            assert(keyword_bytes(Keyword::End).len() == 3 && keyword_bytes(Keyword::In).len() == 2);
            assert(keyword_bytes(Keyword::Include).len() == 7 && keyword_bytes(Keyword::In).len() == 2);
            assert(keyword_of(keyword_bytes(Keyword::In)) == Some(Keyword::In));
        },
        Keyword::With => {
            assert(keyword_bytes(Keyword::Text)[0] != keyword_bytes(Keyword::With)[0]);
            assert(keyword_bytes(Keyword::User)[0] != keyword_bytes(Keyword::With)[0]);
            assert(keyword_bytes(Keyword::Days)[0] != keyword_bytes(Keyword::With)[0]);
            assert(keyword_bytes(Keyword::Cost)[0] != keyword_bytes(Keyword::With)[0]);
            assert(keyword_bytes(Keyword::Type)[0] != keyword_bytes(Keyword::With)[0]);
            assert(keyword_bytes(Keyword::Find)[0] != keyword_bytes(Keyword::With)[0]);
            assert(keyword_bytes(Keyword::Else)[0] != keyword_bytes(Keyword::With)[0]);
            assert(keyword_of(keyword_bytes(Keyword::With)) == Some(Keyword::With));
        },
        Keyword::Of => {
            assert(keyword_bytes(Keyword::No)[0] != keyword_bytes(Keyword::Of)[0]);
            assert(keyword_bytes(Keyword::If)[0] != keyword_bytes(Keyword::Of)[0]);
            assert(keyword_bytes(Keyword::Do)[0] != keyword_bytes(Keyword::Of)[0]);
            assert(keyword_bytes(Keyword::In)[0] != keyword_bytes(Keyword::Of)[0]);
            assert(keyword_of(keyword_bytes(Keyword::Of)) == Some(Keyword::Of));
        },
        Keyword::To => {
            assert(keyword_bytes(Keyword::No)[0] != keyword_bytes(Keyword::To)[0]);
            assert(keyword_bytes(Keyword::If)[0] != keyword_bytes(Keyword::To)[0]);
            assert(keyword_bytes(Keyword::Do)[0] != keyword_bytes(Keyword::To)[0]);
            assert(keyword_bytes(Keyword::In)[0] != keyword_bytes(Keyword::To)[0]);
            assert(keyword_bytes(Keyword::Of)[0] != keyword_bytes(Keyword::To)[0]);
            assert(keyword_of(keyword_bytes(Keyword::To)) == Some(Keyword::To));
        },
        Keyword::For => {
            assert(keyword_bytes(Keyword::Yes)[0] != keyword_bytes(Keyword::For)[0]);
            assert(keyword_bytes(Keyword::Min)[0] != keyword_bytes(Keyword::For)[0]);
            assert(keyword_bytes(Keyword::Max)[0] != keyword_bytes(Keyword::For)[0]);
            assert(keyword_bytes(Keyword::Tag)[0] != keyword_bytes(Keyword::For)[0]);
            assert(keyword_bytes(Keyword::SetStmt)[0] != keyword_bytes(Keyword::For)[0]);
            assert(keyword_bytes(Keyword::End)[0] != keyword_bytes(Keyword::For)[0]);
            assert(keyword_of(keyword_bytes(Keyword::For)) == Some(Keyword::For));
        },
        Keyword::Similar => {
            assert(keyword_bytes(Keyword::Integer)[0] != keyword_bytes(Keyword::Similar)[0]);
            assert(keyword_bytes(Keyword::Decimal)[0] != keyword_bytes(Keyword::Similar)[0]);
            assert(keyword_bytes(Keyword::Seconds)[1] != keyword_bytes(Keyword::Similar)[1]);
            assert(keyword_bytes(Keyword::Minutes)[0] != keyword_bytes(Keyword::Similar)[0]);
            assert(keyword_bytes(Keyword::Include)[0] != keyword_bytes(Keyword::Similar)[0]);
            assert(keyword_of(keyword_bytes(Keyword::Similar)) == Some(Keyword::Similar));
        },
        Keyword::Has => {
            assert(keyword_bytes(Keyword::Yes)[0] != keyword_bytes(Keyword::Has)[0]);
            assert(keyword_bytes(Keyword::Min)[0] != keyword_bytes(Keyword::Has)[0]);
            assert(keyword_bytes(Keyword::Max)[0] != keyword_bytes(Keyword::Has)[0]);
            assert(keyword_bytes(Keyword::Tag)[0] != keyword_bytes(Keyword::Has)[0]);
            assert(keyword_bytes(Keyword::SetStmt)[0] != keyword_bytes(Keyword::Has)[0]);
            assert(keyword_bytes(Keyword::End)[0] != keyword_bytes(Keyword::Has)[0]);
            assert(keyword_bytes(Keyword::For)[0] != keyword_bytes(Keyword::Has)[0]);
            assert(keyword_of(keyword_bytes(Keyword::Has)) == Some(Keyword::Has));
        },
        Keyword::And => {
            assert(keyword_bytes(Keyword::Yes)[0] != keyword_bytes(Keyword::And)[0]);
            assert(keyword_bytes(Keyword::Min)[0] != keyword_bytes(Keyword::And)[0]);
            assert(keyword_bytes(Keyword::Max)[0] != keyword_bytes(Keyword::And)[0]);
            assert(keyword_bytes(Keyword::Tag)[0] != keyword_bytes(Keyword::And)[0]);
            assert(keyword_bytes(Keyword::SetStmt)[0] != keyword_bytes(Keyword::And)[0]);
            assert(keyword_bytes(Keyword::End)[0] != keyword_bytes(Keyword::And)[0]);
            assert(keyword_bytes(Keyword::For)[0] != keyword_bytes(Keyword::And)[0]);
            assert(keyword_bytes(Keyword::Has)[0] != keyword_bytes(Keyword::And)[0]);
            assert(keyword_of(keyword_bytes(Keyword::And)) == Some(Keyword::And));
        },
        Keyword::Or => {
            assert(keyword_bytes(Keyword::No)[0] != keyword_bytes(Keyword::Or)[0]);
            assert(keyword_bytes(Keyword::If)[0] != keyword_bytes(Keyword::Or)[0]);
            assert(keyword_bytes(Keyword::Do)[0] != keyword_bytes(Keyword::Or)[0]);
            assert(keyword_bytes(Keyword::In)[0] != keyword_bytes(Keyword::Or)[0]);
            assert(keyword_bytes(Keyword::Of)[1] != keyword_bytes(Keyword::Or)[1]);
            assert(keyword_bytes(Keyword::To)[0] != keyword_bytes(Keyword::Or)[0]);
            assert(keyword_of(keyword_bytes(Keyword::Or)) == Some(Keyword::Or));
        },
    }
}

/// Looks up the keyword spelled by `chars`.
pub fn keyword_from_bytes(chars: &[u8]) -> (r: Option<Keyword>)
    ensures
        r == keyword_of(chars@),
{
    let lit: [u8; 6] = [111u8, 112u8, 116u8, 105u8, 111u8, 110u8];
    assert(lit@ =~= keyword_bytes(Keyword::Option));
    if bytes_eq(chars, &lit) {
        return Some(Keyword::Option);
    }
    let lit: [u8; 4] = [116u8, 101u8, 120u8, 116u8];
    assert(lit@ =~= keyword_bytes(Keyword::Text));
    if bytes_eq(chars, &lit) {
        return Some(Keyword::Text);
    }
    let lit: [u8; 7] = [105u8, 110u8, 116u8, 101u8, 103u8, 101u8, 114u8];
    assert(lit@ =~= keyword_bytes(Keyword::Integer));
    if bytes_eq(chars, &lit) {
        return Some(Keyword::Integer);
    }
    let lit: [u8; 7] = [100u8, 101u8, 99u8, 105u8, 109u8, 97u8, 108u8];
    assert(lit@ =~= keyword_bytes(Keyword::Decimal));
    if bytes_eq(chars, &lit) {
        return Some(Keyword::Decimal);
    }
    let lit: [u8; 9] = [108u8, 111u8, 99u8, 97u8, 108u8, 105u8, 122u8, 101u8, 100u8];
    assert(lit@ =~= keyword_bytes(Keyword::Localized));
    if bytes_eq(chars, &lit) {
        return Some(Keyword::Localized);
    }
    let lit: [u8; 8] = [100u8, 97u8, 116u8, 101u8, 116u8, 105u8, 109u8, 101u8];
    assert(lit@ =~= keyword_bytes(Keyword::Datetime));
    if bytes_eq(chars, &lit) {
        return Some(Keyword::Datetime);
    }
    let lit: [u8; 8] = [116u8, 105u8, 109u8, 101u8, 115u8, 112u8, 97u8, 110u8];
    assert(lit@ =~= keyword_bytes(Keyword::Timespan));
    if bytes_eq(chars, &lit) {
        return Some(Keyword::Timespan);
    }
    let lit: [u8; 6] = [111u8, 98u8, 106u8, 101u8, 99u8, 116u8];
    assert(lit@ =~= keyword_bytes(Keyword::Object));
    if bytes_eq(chars, &lit) {
        return Some(Keyword::Object);
    }
    let lit: [u8; 5] = [97u8, 114u8, 114u8, 97u8, 121u8];
    assert(lit@ =~= keyword_bytes(Keyword::Array));
    if bytes_eq(chars, &lit) {
        return Some(Keyword::Array);
    }
    let lit: [u8; 6] = [114u8, 101u8, 109u8, 111u8, 116u8, 101u8];
    assert(lit@ =~= keyword_bytes(Keyword::Remote));
    if bytes_eq(chars, &lit) {
        return Some(Keyword::Remote);
    }
    let lit: [u8; 4] = [117u8, 115u8, 101u8, 114u8];
    assert(lit@ =~= keyword_bytes(Keyword::User));
    if bytes_eq(chars, &lit) {
        return Some(Keyword::User);
    }
    let lit: [u8; 5] = [103u8, 114u8, 111u8, 117u8, 112u8];
    assert(lit@ =~= keyword_bytes(Keyword::Group));
    if bytes_eq(chars, &lit) {
        return Some(Keyword::Group);
    }
    let lit: [u8; 11] = [99u8, 111u8, 108u8, 108u8, 101u8, 99u8, 116u8, 97u8, 98u8, 108u8, 101u8];
    assert(lit@ =~= keyword_bytes(Keyword::Collectable));
    if bytes_eq(chars, &lit) {
        return Some(Keyword::Collectable);
    }
    let lit: [u8; 5] = [101u8, 118u8, 101u8, 110u8, 116u8];
    assert(lit@ =~= keyword_bytes(Keyword::Event));
    if bytes_eq(chars, &lit) {
        return Some(Keyword::Event);
    }
    let lit: [u8; 8] = [102u8, 117u8, 110u8, 99u8, 116u8, 105u8, 111u8, 110u8];
    assert(lit@ =~= keyword_bytes(Keyword::Function));
    if bytes_eq(chars, &lit) {
        return Some(Keyword::Function);
    }
    let lit: [u8; 3] = [121u8, 101u8, 115u8];
    assert(lit@ =~= keyword_bytes(Keyword::Yes));
    if bytes_eq(chars, &lit) {
        return Some(Keyword::Yes);
    }
    let lit: [u8; 2] = [110u8, 111u8];
    assert(lit@ =~= keyword_bytes(Keyword::No));
    if bytes_eq(chars, &lit) {
        return Some(Keyword::No);
    }
    let lit: [u8; 12] = [109u8, 105u8, 108u8, 108u8, 105u8, 115u8, 101u8, 99u8, 111u8, 110u8, 100u8, 115u8];
    assert(lit@ =~= keyword_bytes(Keyword::Milliseconds));
    if bytes_eq(chars, &lit) {
        return Some(Keyword::Milliseconds);
    }
    let lit: [u8; 7] = [115u8, 101u8, 99u8, 111u8, 110u8, 100u8, 115u8];
    assert(lit@ =~= keyword_bytes(Keyword::Seconds));
    if bytes_eq(chars, &lit) {
        return Some(Keyword::Seconds);
    }
    let lit: [u8; 7] = [109u8, 105u8, 110u8, 117u8, 116u8, 101u8, 115u8];
    assert(lit@ =~= keyword_bytes(Keyword::Minutes));
    if bytes_eq(chars, &lit) {
        return Some(Keyword::Minutes);
    }
    let lit: [u8; 5] = [104u8, 111u8, 117u8, 114u8, 115u8];
    assert(lit@ =~= keyword_bytes(Keyword::Hours));
    if bytes_eq(chars, &lit) {
        return Some(Keyword::Hours);
    }
    let lit: [u8; 4] = [100u8, 97u8, 121u8, 115u8];
    assert(lit@ =~= keyword_bytes(Keyword::Days));
    if bytes_eq(chars, &lit) {
        return Some(Keyword::Days);
    }
    let lit: [u8; 5] = [119u8, 101u8, 101u8, 107u8, 115u8];
    assert(lit@ =~= keyword_bytes(Keyword::Weeks));
    if bytes_eq(chars, &lit) {
        return Some(Keyword::Weeks);
    }
    let lit: [u8; 6] = [109u8, 111u8, 110u8, 116u8, 104u8, 115u8];
    assert(lit@ =~= keyword_bytes(Keyword::Months));
    if bytes_eq(chars, &lit) {
        return Some(Keyword::Months);
    }
    let lit: [u8; 5] = [121u8, 101u8, 97u8, 114u8, 115u8];
    assert(lit@ =~= keyword_bytes(Keyword::Years));
    if bytes_eq(chars, &lit) {
        return Some(Keyword::Years);
    }
    let lit: [u8; 6] = [97u8, 109u8, 111u8, 117u8, 110u8, 116u8];
    assert(lit@ =~= keyword_bytes(Keyword::Amount));
    if bytes_eq(chars, &lit) {
        return Some(Keyword::Amount);
    }
    let lit: [u8; 4] = [99u8, 111u8, 115u8, 116u8];
    assert(lit@ =~= keyword_bytes(Keyword::Cost));
    if bytes_eq(chars, &lit) {
        return Some(Keyword::Cost);
    }
    let lit: [u8; 8] = [99u8, 117u8, 114u8, 114u8, 101u8, 110u8, 99u8, 121u8];
    assert(lit@ =~= keyword_bytes(Keyword::Currency));
    if bytes_eq(chars, &lit) {
        return Some(Keyword::Currency);
    }
    let lit: [u8; 8] = [119u8, 101u8, 105u8, 103u8, 104u8, 116u8, 101u8, 100u8];
    assert(lit@ =~= keyword_bytes(Keyword::Weighted));
    if bytes_eq(chars, &lit) {
        return Some(Keyword::Weighted);
    }
    let lit: [u8; 12] = [100u8, 105u8, 115u8, 116u8, 114u8, 105u8, 98u8, 117u8, 116u8, 105u8, 111u8, 110u8];
    assert(lit@ =~= keyword_bytes(Keyword::Distribution));
    if bytes_eq(chars, &lit) {
        return Some(Keyword::Distribution);
    }
    let lit: [u8; 5] = [114u8, 97u8, 110u8, 103u8, 101u8];
    assert(lit@ =~= keyword_bytes(Keyword::Range));
    if bytes_eq(chars, &lit) {
        return Some(Keyword::Range);
    }
    let lit: [u8; 3] = [109u8, 105u8, 110u8];
    assert(lit@ =~= keyword_bytes(Keyword::Min));
    if bytes_eq(chars, &lit) {
        return Some(Keyword::Min);
    }
    let lit: [u8; 3] = [109u8, 97u8, 120u8];
    assert(lit@ =~= keyword_bytes(Keyword::Max));
    if bytes_eq(chars, &lit) {
        return Some(Keyword::Max);
    }
    let lit: [u8; 1] = [120u8];
    assert(lit@ =~= keyword_bytes(Keyword::X));
    if bytes_eq(chars, &lit) {
        return Some(Keyword::X);
    }
    let lit: [u8; 8] = [112u8, 114u8, 111u8, 112u8, 101u8, 114u8, 116u8, 121u8];
    assert(lit@ =~= keyword_bytes(Keyword::Property));
    if bytes_eq(chars, &lit) {
        return Some(Keyword::Property);
    }
    let lit: [u8; 10] = [112u8, 101u8, 114u8, 109u8, 105u8, 115u8, 115u8, 105u8, 111u8, 110u8];
    assert(lit@ =~= keyword_bytes(Keyword::Permission));
    if bytes_eq(chars, &lit) {
        return Some(Keyword::Permission);
    }
    let lit: [u8; 4] = [116u8, 121u8, 112u8, 101u8];
    assert(lit@ =~= keyword_bytes(Keyword::Type));
    if bytes_eq(chars, &lit) {
        return Some(Keyword::Type);
    }
    let lit: [u8; 3] = [116u8, 97u8, 103u8];
    assert(lit@ =~= keyword_bytes(Keyword::Tag));
    if bytes_eq(chars, &lit) {
        return Some(Keyword::Tag);
    }
    let lit: [u8; 8] = [117u8, 112u8, 103u8, 114u8, 97u8, 100u8, 101u8, 115u8];
    assert(lit@ =~= keyword_bytes(Keyword::Upgrades));
    if bytes_eq(chars, &lit) {
        return Some(Keyword::Upgrades);
    }
    let lit: [u8; 11] = [114u8, 101u8, 100u8, 101u8, 109u8, 112u8, 116u8, 105u8, 111u8, 110u8, 115u8];
    assert(lit@ =~= keyword_bytes(Keyword::Redemptions));
    if bytes_eq(chars, &lit) {
        return Some(Keyword::Redemptions);
    }
    let lit: [u8; 6] = [112u8, 97u8, 114u8, 97u8, 109u8, 115u8];
    assert(lit@ =~= keyword_bytes(Keyword::Params));
    if bytes_eq(chars, &lit) {
        return Some(Keyword::Params);
    }
    let lit: [u8; 6] = [97u8, 115u8, 115u8, 101u8, 114u8, 116u8];
    assert(lit@ =~= keyword_bytes(Keyword::Assert));
    if bytes_eq(chars, &lit) {
        return Some(Keyword::Assert);
    }
    let lit: [u8; 9] = [97u8, 117u8, 116u8, 104u8, 111u8, 114u8, 105u8, 122u8, 101u8];
    assert(lit@ =~= keyword_bytes(Keyword::Authorize));
    if bytes_eq(chars, &lit) {
        return Some(Keyword::Authorize);
    }
    let lit: [u8; 5] = [97u8, 119u8, 97u8, 114u8, 100u8];
    assert(lit@ =~= keyword_bytes(Keyword::Award));
    if bytes_eq(chars, &lit) {
        return Some(Keyword::Award);
    }
    let lit: [u8; 5] = [116u8, 105u8, 109u8, 101u8, 114u8];
    assert(lit@ =~= keyword_bytes(Keyword::Timer));
    if bytes_eq(chars, &lit) {
        return Some(Keyword::Timer);
    }
    let lit: [u8; 3] = [115u8, 101u8, 116u8];
    assert(lit@ =~= keyword_bytes(Keyword::SetStmt));
    if bytes_eq(chars, &lit) {
        return Some(Keyword::SetStmt);
    }
    let lit: [u8; 4] = [102u8, 105u8, 110u8, 100u8];
    assert(lit@ =~= keyword_bytes(Keyword::Find));
    if bytes_eq(chars, &lit) {
        return Some(Keyword::Find);
    }
    let lit: [u8; 6] = [110u8, 111u8, 116u8, 105u8, 102u8, 121u8];
    assert(lit@ =~= keyword_bytes(Keyword::Notify));
    if bytes_eq(chars, &lit) {
        return Some(Keyword::Notify);
    }
    let lit: [u8; 6] = [114u8, 97u8, 110u8, 100u8, 111u8, 109u8];
    assert(lit@ =~= keyword_bytes(Keyword::Random));
    if bytes_eq(chars, &lit) {
        return Some(Keyword::Random);
    }
    let lit: [u8; 2] = [105u8, 102u8];
    assert(lit@ =~= keyword_bytes(Keyword::If));
    if bytes_eq(chars, &lit) {
        return Some(Keyword::If);
    }
    let lit: [u8; 4] = [101u8, 108u8, 115u8, 101u8];
    assert(lit@ =~= keyword_bytes(Keyword::Else));
    if bytes_eq(chars, &lit) {
        return Some(Keyword::Else);
    }
    let lit: [u8; 2] = [100u8, 111u8];
    assert(lit@ =~= keyword_bytes(Keyword::Do));
    if bytes_eq(chars, &lit) {
        return Some(Keyword::Do);
    }
    let lit: [u8; 3] = [101u8, 110u8, 100u8];
    assert(lit@ =~= keyword_bytes(Keyword::End));
    if bytes_eq(chars, &lit) {
        return Some(Keyword::End);
    }
    let lit: [u8; 7] = [105u8, 110u8, 99u8, 108u8, 117u8, 100u8, 101u8];
    assert(lit@ =~= keyword_bytes(Keyword::Include));
    if bytes_eq(chars, &lit) {
        return Some(Keyword::Include);
    }
    let lit: [u8; 2] = [105u8, 110u8];
    assert(lit@ =~= keyword_bytes(Keyword::In));
    if bytes_eq(chars, &lit) {
        return Some(Keyword::In);
    }
    let lit: [u8; 4] = [119u8, 105u8, 116u8, 104u8];
    assert(lit@ =~= keyword_bytes(Keyword::With));
    if bytes_eq(chars, &lit) {
        return Some(Keyword::With);
    }
    let lit: [u8; 2] = [111u8, 102u8];
    assert(lit@ =~= keyword_bytes(Keyword::Of));
    if bytes_eq(chars, &lit) {
        return Some(Keyword::Of);
    }
    let lit: [u8; 2] = [116u8, 111u8];
    assert(lit@ =~= keyword_bytes(Keyword::To));
    if bytes_eq(chars, &lit) {
        return Some(Keyword::To);
    }
    let lit: [u8; 3] = [102u8, 111u8, 114u8];
    assert(lit@ =~= keyword_bytes(Keyword::For));
    if bytes_eq(chars, &lit) {
        return Some(Keyword::For);
    }
    let lit: [u8; 7] = [115u8, 105u8, 109u8, 105u8, 108u8, 97u8, 114u8];
    assert(lit@ =~= keyword_bytes(Keyword::Similar));
    if bytes_eq(chars, &lit) {
        return Some(Keyword::Similar);
    }
    let lit: [u8; 3] = [104u8, 97u8, 115u8];
    assert(lit@ =~= keyword_bytes(Keyword::Has));
    if bytes_eq(chars, &lit) {
        return Some(Keyword::Has);
    }
    let lit: [u8; 3] = [97u8, 110u8, 100u8];
    assert(lit@ =~= keyword_bytes(Keyword::And));
    if bytes_eq(chars, &lit) {
        return Some(Keyword::And);
    }
    let lit: [u8; 2] = [111u8, 114u8];
    assert(lit@ =~= keyword_bytes(Keyword::Or));
    if bytes_eq(chars, &lit) {
        return Some(Keyword::Or);
    }
    None
}

/// The kinds of tokens. A decimal or percentage literal holds its source
/// text (digits and point, without the percent sign): reading it as a float
/// is left to the caller.
#[derive(Debug, Copy, Clone, PartialEq)]
pub enum TokenKind<'a> {
    Invalid(char),
    Eof,
    Identifier(&'a [u8]),
    String(&'a [u8]),
    Integer(i64),
    Decimal(&'a [u8]),
    Percentage(&'a [u8]),
    Keyword(Keyword),
    Semicolon,
    Colon,
    Dot,
    Comma,
    LParen,
    RParen,
    LSquareBracket,
    RSquareBracket,
    Minus,
    Plus,
    Multiply,
    Divide,
    Caret,
    Equal,
    NotEqual,
    Less,
    LessEqual,
    Greater,
    GreaterEqual,
    PercentSign,
    Exclamation,
    LeftArrow,
    RightArrow,
}

/// A token kind with its borrowed text taken as a sequence of bytes.
pub enum TokenKindView {
    Invalid(char),
    Eof,
    Identifier(Seq<u8>),
    String(Seq<u8>),
    Integer(int),
    Decimal(Seq<u8>),
    Percentage(Seq<u8>),
    Keyword(Keyword),
    Semicolon,
    Colon,
    Dot,
    Comma,
    LParen,
    RParen,
    LSquareBracket,
    RSquareBracket,
    Minus,
    Plus,
    Multiply,
    Divide,
    Caret,
    Equal,
    NotEqual,
    Less,
    LessEqual,
    Greater,
    GreaterEqual,
    PercentSign,
    Exclamation,
    LeftArrow,
    RightArrow,
}

impl<'a> View for TokenKind<'a> {
    type V = TokenKindView;

    open spec fn view(&self) -> TokenKindView {
        match *self {
            TokenKind::Invalid(x) => TokenKindView::Invalid(x),
            TokenKind::Eof => TokenKindView::Eof,
            TokenKind::Identifier(x) => TokenKindView::Identifier(x@),
            TokenKind::String(x) => TokenKindView::String(x@),
            TokenKind::Integer(x) => TokenKindView::Integer(x as int),
            TokenKind::Decimal(x) => TokenKindView::Decimal(x@),
            TokenKind::Percentage(x) => TokenKindView::Percentage(x@),
            TokenKind::Keyword(x) => TokenKindView::Keyword(x),
            TokenKind::Semicolon => TokenKindView::Semicolon,
            TokenKind::Colon => TokenKindView::Colon,
            TokenKind::Dot => TokenKindView::Dot,
            TokenKind::Comma => TokenKindView::Comma,
            TokenKind::LParen => TokenKindView::LParen,
            TokenKind::RParen => TokenKindView::RParen,
            TokenKind::LSquareBracket => TokenKindView::LSquareBracket,
            TokenKind::RSquareBracket => TokenKindView::RSquareBracket,
            TokenKind::Minus => TokenKindView::Minus,
            TokenKind::Plus => TokenKindView::Plus,
            TokenKind::Multiply => TokenKindView::Multiply,
            TokenKind::Divide => TokenKindView::Divide,
            TokenKind::Caret => TokenKindView::Caret,
            TokenKind::Equal => TokenKindView::Equal,
            TokenKind::NotEqual => TokenKindView::NotEqual,
            TokenKind::Less => TokenKindView::Less,
            TokenKind::LessEqual => TokenKindView::LessEqual,
            TokenKind::Greater => TokenKindView::Greater,
            TokenKind::GreaterEqual => TokenKindView::GreaterEqual,
            TokenKind::PercentSign => TokenKindView::PercentSign,
            TokenKind::Exclamation => TokenKindView::Exclamation,
            TokenKind::LeftArrow => TokenKindView::LeftArrow,
            TokenKind::RightArrow => TokenKindView::RightArrow,
        }
    }
}

/// A token with its place in the source.
#[derive(Debug, Clone, PartialEq)]
pub struct Token<'a> {
    pub kind: TokenKind<'a>,
    pub span: TokenSpan,
}

impl<'a> Token<'a> {
    pub fn new(kind: TokenKind<'a>, span: TokenSpan) -> (r: Self)
        ensures
            r.kind == kind,
            r.span == span,
    {
        Token { kind, span }
    }
}

/// For tokens that have values inside them.
#[derive(Debug, Copy, Clone, PartialEq, Eq, PartialOrd, Ord, Structural)]
pub enum TokenMatch {
    Invalid,
    Identifier,
    String,
    Integer,
    Decimal,
    Percentage,
    Keyword,
}

/// A value read from the source, with the span it was read from.
#[derive(Debug, Clone, PartialEq)]
pub struct TokenValue<T> {
    value: T,
    span: TokenSpan,
}

impl<T> TokenValue<T> {
    pub closed spec fn spec_value(&self) -> T {
        self.value
    }

    pub closed spec fn spec_span(&self) -> TokenSpan {
        self.span
    }

    pub fn new(value: T, span: TokenSpan) -> (r: Self)
        ensures
            r.spec_value() == value,
            r.spec_span() == span,
    {
        TokenValue { value, span }
    }

    /// The default value of `T`, at the span of `other`.
    pub fn with_default(other: &TokenValue<T>) -> (r: Self)
        where
            T: Default,
        ensures
            call_ensures(T::default, (), r.spec_value()),
            r.spec_span() == other.spec_span(),
    {
        TokenValue { value: T::default(), span: other.span.clone() }
    }

    /// A value spanning from the start of `start` to the end of `end`.
    pub fn with_span_range(value: T, start: &TokenSpan, end: &TokenSpan) -> (r: Self)
        ensures
            r.spec_value() == value,
            r.spec_span() == join_spans(*start, *end),
    {
        TokenValue { value, span: start.from_to(end) }
    }

    pub fn value(&self) -> (r: &T)
        ensures
            *r == self.spec_value(),
    {
        &self.value
    }

    pub fn span(&self) -> (r: &TokenSpan)
        ensures
            *r == self.spec_span(),
    {
        &self.span
    }

    pub fn into_inner(self) -> (r: T)
        ensures
            r == self.spec_value(),
    {
        self.value
    }
}

impl TokenValue<Vec<u8>> {
    /// A copy of a name, with its span.
    pub fn clone_name(&self) -> (r: Self)
        ensures
            r.spec_value()@ == self.spec_value()@,
            r.spec_span() == self.spec_span(),
    {
        TokenValue { value: slice_to_vec(self.value.as_slice()), span: self.span.clone() }
    }
}

/// The bytes of a name read from the source.
pub open spec fn name_bytes(tv: TokenValue<Vec<u8>>) -> Seq<u8> {
    tv.spec_value()@
}

/// The text that names a token in messages: an identifier's or a string's
/// own text, a keyword's spelling, an operator's symbol, or a description.
pub open spec fn token_text(k: TokenKindView) -> Seq<u8> {
    match k {
        TokenKindView::Identifier(s) => s,
        TokenKindView::String(s) => s,
        TokenKindView::Keyword(kw) => keyword_bytes(kw),
        TokenKindView::Invalid(_) => seq![105u8, 110u8, 118u8, 97u8, 108u8, 105u8, 100u8, 32u8, 99u8, 104u8, 97u8, 114u8, 97u8, 99u8, 116u8, 101u8, 114u8],
        TokenKindView::Eof => seq![101u8, 110u8, 100u8, 32u8, 111u8, 102u8, 32u8, 105u8, 110u8, 112u8, 117u8, 116u8],
        TokenKindView::Integer(_) => seq![105u8, 110u8, 116u8, 101u8, 103u8, 101u8, 114u8],
        TokenKindView::Decimal(_) => seq![100u8, 101u8, 99u8, 105u8, 109u8, 97u8, 108u8],
        TokenKindView::Percentage(_) => seq![112u8, 101u8, 114u8, 99u8, 101u8, 110u8, 116u8, 97u8, 103u8, 101u8],
        TokenKindView::Semicolon => seq![59u8],
        TokenKindView::Colon => seq![58u8],
        TokenKindView::Dot => seq![46u8],
        TokenKindView::Comma => seq![44u8],
        TokenKindView::LParen => seq![40u8],
        TokenKindView::RParen => seq![41u8],
        TokenKindView::LSquareBracket => seq![91u8],
        TokenKindView::RSquareBracket => seq![93u8],
        TokenKindView::Minus => seq![45u8],
        TokenKindView::Plus => seq![43u8],
        TokenKindView::Multiply => seq![42u8],
        TokenKindView::Divide => seq![47u8],
        TokenKindView::Caret => seq![94u8],
        TokenKindView::Equal => seq![61u8],
        TokenKindView::NotEqual => seq![33u8, 61u8],
        TokenKindView::Less => seq![60u8],
        TokenKindView::LessEqual => seq![60u8, 61u8],
        TokenKindView::Greater => seq![62u8],
        TokenKindView::GreaterEqual => seq![62u8, 61u8],
        TokenKindView::PercentSign => seq![37u8],
        TokenKindView::Exclamation => seq![33u8],
        TokenKindView::LeftArrow => seq![60u8, 45u8],
        TokenKindView::RightArrow => seq![45u8, 62u8],
    }
}

impl<'a> TokenKind<'a> {
    /// The text that names this token in messages.
    pub fn as_str(&self) -> (r: Vec<u8>)
        ensures
            r@ == token_text(self@),
    {
        match *self {
            TokenKind::Identifier(s) => slice_to_vec(s),
            TokenKind::String(s) => slice_to_vec(s),
            TokenKind::Keyword(k) => keyword_to_vec(k),
            TokenKind::Invalid(_) => {
                let r = vec![105u8, 110u8, 118u8, 97u8, 108u8, 105u8, 100u8, 32u8, 99u8, 104u8, 97u8, 114u8, 97u8, 99u8, 116u8, 101u8, 114u8];
                assert(r@ =~= token_text(self@));
                r
            },
            TokenKind::Eof => {
                let r = vec![101u8, 110u8, 100u8, 32u8, 111u8, 102u8, 32u8, 105u8, 110u8, 112u8, 117u8, 116u8];
                assert(r@ =~= token_text(self@));
                r
            },
            TokenKind::Integer(_) => {
                let r = vec![105u8, 110u8, 116u8, 101u8, 103u8, 101u8, 114u8];
                assert(r@ =~= token_text(self@));
                r
            },
            TokenKind::Decimal(_) => {
                let r = vec![100u8, 101u8, 99u8, 105u8, 109u8, 97u8, 108u8];
                assert(r@ =~= token_text(self@));
                r
            },
            TokenKind::Percentage(_) => {
                let r = vec![112u8, 101u8, 114u8, 99u8, 101u8, 110u8, 116u8, 97u8, 103u8, 101u8];
                assert(r@ =~= token_text(self@));
                r
            },
            TokenKind::Semicolon => {
                let r = vec![59u8];
                assert(r@ =~= token_text(self@));
                r
            },
            TokenKind::Colon => {
                let r = vec![58u8];
                assert(r@ =~= token_text(self@));
                r
            },
            TokenKind::Dot => {
                let r = vec![46u8];
                assert(r@ =~= token_text(self@));
                r
            },
            TokenKind::Comma => {
                let r = vec![44u8];
                assert(r@ =~= token_text(self@));
                r
            },
            TokenKind::LParen => {
                let r = vec![40u8];
                assert(r@ =~= token_text(self@));
                r
            },
            TokenKind::RParen => {
                let r = vec![41u8];
                assert(r@ =~= token_text(self@));
                r
            },
            TokenKind::LSquareBracket => {
                let r = vec![91u8];
                assert(r@ =~= token_text(self@));
                r
            },
            TokenKind::RSquareBracket => {
                let r = vec![93u8];
                assert(r@ =~= token_text(self@));
                r
            },
            TokenKind::Minus => {
                let r = vec![45u8];
                assert(r@ =~= token_text(self@));
                r
            },
            TokenKind::Plus => {
                let r = vec![43u8];
                assert(r@ =~= token_text(self@));
                r
            },
            TokenKind::Multiply => {
                let r = vec![42u8];
                assert(r@ =~= token_text(self@));
                r
            },
            TokenKind::Divide => {
                let r = vec![47u8];
                assert(r@ =~= token_text(self@));
                r
            },
            TokenKind::Caret => {
                let r = vec![94u8];
                assert(r@ =~= token_text(self@));
                r
            },
            TokenKind::Equal => {
                let r = vec![61u8];
                assert(r@ =~= token_text(self@));
                r
            },
            TokenKind::NotEqual => {
                let r = vec![33u8, 61u8];
                assert(r@ =~= token_text(self@));
                r
            },
            TokenKind::Less => {
                let r = vec![60u8];
                assert(r@ =~= token_text(self@));
                r
            },
            TokenKind::LessEqual => {
                let r = vec![60u8, 61u8];
                assert(r@ =~= token_text(self@));
                r
            },
            TokenKind::Greater => {
                let r = vec![62u8];
                assert(r@ =~= token_text(self@));
                r
            },
            TokenKind::GreaterEqual => {
                let r = vec![62u8, 61u8];
                assert(r@ =~= token_text(self@));
                r
            },
            TokenKind::PercentSign => {
                let r = vec![37u8];
                assert(r@ =~= token_text(self@));
                r
            },
            TokenKind::Exclamation => {
                let r = vec![33u8];
                assert(r@ =~= token_text(self@));
                r
            },
            TokenKind::LeftArrow => {
                let r = vec![60u8, 45u8];
                assert(r@ =~= token_text(self@));
                r
            },
            TokenKind::RightArrow => {
                let r = vec![45u8, 62u8];
                assert(r@ =~= token_text(self@));
                r
            },
        }
    }
}

/// The spelling of a keyword, as a vector of bytes.
pub fn keyword_to_vec(k: Keyword) -> (r: Vec<u8>)
    ensures
        r@ == keyword_bytes(k),
{
    match k {
        Keyword::Option => {
            let r = vec![111u8, 112u8, 116u8, 105u8, 111u8, 110u8];
            assert(r@ =~= keyword_bytes(k));
            r
        },
        Keyword::Text => {
            let r = vec![116u8, 101u8, 120u8, 116u8];
            assert(r@ =~= keyword_bytes(k));
            r
        },
        Keyword::Integer => {
            let r = vec![105u8, 110u8, 116u8, 101u8, 103u8, 101u8, 114u8];
            assert(r@ =~= keyword_bytes(k));
            r
        },
        Keyword::Decimal => {
            let r = vec![100u8, 101u8, 99u8, 105u8, 109u8, 97u8, 108u8];
            assert(r@ =~= keyword_bytes(k));
            r
        },
        Keyword::Localized => {
            let r = vec![108u8, 111u8, 99u8, 97u8, 108u8, 105u8, 122u8, 101u8, 100u8];
            assert(r@ =~= keyword_bytes(k));
            r
        },
        Keyword::Datetime => {
            let r = vec![100u8, 97u8, 116u8, 101u8, 116u8, 105u8, 109u8, 101u8];
            assert(r@ =~= keyword_bytes(k));
            r
        },
        Keyword::Timespan => {
            let r = vec![116u8, 105u8, 109u8, 101u8, 115u8, 112u8, 97u8, 110u8];
            assert(r@ =~= keyword_bytes(k));
            r
        },
        Keyword::Object => {
            let r = vec![111u8, 98u8, 106u8, 101u8, 99u8, 116u8];
            assert(r@ =~= keyword_bytes(k));
            r
        },
        Keyword::Array => {
            let r = vec![97u8, 114u8, 114u8, 97u8, 121u8];
            assert(r@ =~= keyword_bytes(k));
            r
        },
        Keyword::Remote => {
            let r = vec![114u8, 101u8, 109u8, 111u8, 116u8, 101u8];
            assert(r@ =~= keyword_bytes(k));
            r
        },
        Keyword::User => {
            let r = vec![117u8, 115u8, 101u8, 114u8];
            assert(r@ =~= keyword_bytes(k));
            r
        },
        Keyword::Group => {
            let r = vec![103u8, 114u8, 111u8, 117u8, 112u8];
            assert(r@ =~= keyword_bytes(k));
            r
        },
        Keyword::Collectable => {
            let r = vec![99u8, 111u8, 108u8, 108u8, 101u8, 99u8, 116u8, 97u8, 98u8, 108u8, 101u8];
            assert(r@ =~= keyword_bytes(k));
            r
        },
        Keyword::Event => {
            let r = vec![101u8, 118u8, 101u8, 110u8, 116u8];
            assert(r@ =~= keyword_bytes(k));
            r
        },
        Keyword::Function => {
            let r = vec![102u8, 117u8, 110u8, 99u8, 116u8, 105u8, 111u8, 110u8];
            assert(r@ =~= keyword_bytes(k));
            r
        },
        Keyword::Yes => {
            let r = vec![121u8, 101u8, 115u8];
            assert(r@ =~= keyword_bytes(k));
            r
        },
        Keyword::No => {
            let r = vec![110u8, 111u8];
            assert(r@ =~= keyword_bytes(k));
            r
        },
        Keyword::Milliseconds => {
            let r = vec![109u8, 105u8, 108u8, 108u8, 105u8, 115u8, 101u8, 99u8, 111u8, 110u8, 100u8, 115u8];
            assert(r@ =~= keyword_bytes(k));
            r
        },
        Keyword::Seconds => {
            let r = vec![115u8, 101u8, 99u8, 111u8, 110u8, 100u8, 115u8];
            assert(r@ =~= keyword_bytes(k));
            r
        },
        Keyword::Minutes => {
            let r = vec![109u8, 105u8, 110u8, 117u8, 116u8, 101u8, 115u8];
            assert(r@ =~= keyword_bytes(k));
            r
        },
        Keyword::Hours => {
            let r = vec![104u8, 111u8, 117u8, 114u8, 115u8];
            assert(r@ =~= keyword_bytes(k));
            r
        },
        Keyword::Days => {
            let r = vec![100u8, 97u8, 121u8, 115u8];
            assert(r@ =~= keyword_bytes(k));
            r
        },
        Keyword::Weeks => {
            let r = vec![119u8, 101u8, 101u8, 107u8, 115u8];
            assert(r@ =~= keyword_bytes(k));
            r
        },
        Keyword::Months => {
            let r = vec![109u8, 111u8, 110u8, 116u8, 104u8, 115u8];
            assert(r@ =~= keyword_bytes(k));
            r
        },
        Keyword::Years => {
            let r = vec![121u8, 101u8, 97u8, 114u8, 115u8];
            assert(r@ =~= keyword_bytes(k));
            r
        },
        Keyword::Amount => {
            let r = vec![97u8, 109u8, 111u8, 117u8, 110u8, 116u8];
            assert(r@ =~= keyword_bytes(k));
            r
        },
        Keyword::Cost => {
            let r = vec![99u8, 111u8, 115u8, 116u8];
            assert(r@ =~= keyword_bytes(k));
            r
        },
        Keyword::Currency => {
            let r = vec![99u8, 117u8, 114u8, 114u8, 101u8, 110u8, 99u8, 121u8];
            assert(r@ =~= keyword_bytes(k));
            r
        },
        Keyword::Weighted => {
            let r = vec![119u8, 101u8, 105u8, 103u8, 104u8, 116u8, 101u8, 100u8];
            assert(r@ =~= keyword_bytes(k));
            r
        },
        Keyword::Distribution => {
            let r = vec![100u8, 105u8, 115u8, 116u8, 114u8, 105u8, 98u8, 117u8, 116u8, 105u8, 111u8, 110u8];
            assert(r@ =~= keyword_bytes(k));
            r
        },
        Keyword::Range => {
            let r = vec![114u8, 97u8, 110u8, 103u8, 101u8];
            assert(r@ =~= keyword_bytes(k));
            r
        },
        Keyword::Min => {
            let r = vec![109u8, 105u8, 110u8];
            assert(r@ =~= keyword_bytes(k));
            r
        },
        Keyword::Max => {
            let r = vec![109u8, 97u8, 120u8];
            assert(r@ =~= keyword_bytes(k));
            r
        },
        Keyword::X => {
            let r = vec![120u8];
            assert(r@ =~= keyword_bytes(k));
            r
        },
        Keyword::Property => {
            let r = vec![112u8, 114u8, 111u8, 112u8, 101u8, 114u8, 116u8, 121u8];
            assert(r@ =~= keyword_bytes(k));
            r
        },
        Keyword::Permission => {
            let r = vec![112u8, 101u8, 114u8, 109u8, 105u8, 115u8, 115u8, 105u8, 111u8, 110u8];
            assert(r@ =~= keyword_bytes(k));
            r
        },
        Keyword::Type => {
            let r = vec![116u8, 121u8, 112u8, 101u8];
            assert(r@ =~= keyword_bytes(k));
            r
        },
        Keyword::Tag => {
            let r = vec![116u8, 97u8, 103u8];
            assert(r@ =~= keyword_bytes(k));
            r
        },
        Keyword::Upgrades => {
            let r = vec![117u8, 112u8, 103u8, 114u8, 97u8, 100u8, 101u8, 115u8];
            assert(r@ =~= keyword_bytes(k));
            r
        },
        Keyword::Redemptions => {
            let r = vec![114u8, 101u8, 100u8, 101u8, 109u8, 112u8, 116u8, 105u8, 111u8, 110u8, 115u8];
            assert(r@ =~= keyword_bytes(k));
            r
        },
        Keyword::Params => {
            let r = vec![112u8, 97u8, 114u8, 97u8, 109u8, 115u8];
            assert(r@ =~= keyword_bytes(k));
            r
        },
        Keyword::Assert => {
            let r = vec![97u8, 115u8, 115u8, 101u8, 114u8, 116u8];
            assert(r@ =~= keyword_bytes(k));
            r
        },
        Keyword::Authorize => {
            let r = vec![97u8, 117u8, 116u8, 104u8, 111u8, 114u8, 105u8, 122u8, 101u8];
            assert(r@ =~= keyword_bytes(k));
            r
        },
        Keyword::Award => {
            let r = vec![97u8, 119u8, 97u8, 114u8, 100u8];
            assert(r@ =~= keyword_bytes(k));
            r
        },
        Keyword::Timer => {
            let r = vec![116u8, 105u8, 109u8, 101u8, 114u8];
            assert(r@ =~= keyword_bytes(k));
            r
        },
        Keyword::SetStmt => {
            let r = vec![115u8, 101u8, 116u8];
            assert(r@ =~= keyword_bytes(k));
            r
        },
        Keyword::Find => {
            let r = vec![102u8, 105u8, 110u8, 100u8];
            assert(r@ =~= keyword_bytes(k));
            r
        },
        Keyword::Notify => {
            let r = vec![110u8, 111u8, 116u8, 105u8, 102u8, 121u8];
            assert(r@ =~= keyword_bytes(k));
            r
        },
        Keyword::Random => {
            let r = vec![114u8, 97u8, 110u8, 100u8, 111u8, 109u8];
            assert(r@ =~= keyword_bytes(k));
            r
        },
        Keyword::If => {
            let r = vec![105u8, 102u8];
            assert(r@ =~= keyword_bytes(k));
            r
        },
        Keyword::Else => {
            let r = vec![101u8, 108u8, 115u8, 101u8];
            assert(r@ =~= keyword_bytes(k));
            r
        },
        Keyword::Do => {
            let r = vec![100u8, 111u8];
            assert(r@ =~= keyword_bytes(k));
            r
        },
        Keyword::End => {
            let r = vec![101u8, 110u8, 100u8];
            assert(r@ =~= keyword_bytes(k));
            r
        },
        Keyword::Include => {
            let r = vec![105u8, 110u8, 99u8, 108u8, 117u8, 100u8, 101u8];
            assert(r@ =~= keyword_bytes(k));
            r
        },
        Keyword::In => {
            let r = vec![105u8, 110u8];
            assert(r@ =~= keyword_bytes(k));
            r
        },
        Keyword::With => {
            let r = vec![119u8, 105u8, 116u8, 104u8];
            assert(r@ =~= keyword_bytes(k));
            r
        },
        Keyword::Of => {
            let r = vec![111u8, 102u8];
            assert(r@ =~= keyword_bytes(k));
            r
        },
        Keyword::To => {
            let r = vec![116u8, 111u8];
            assert(r@ =~= keyword_bytes(k));
            r
        },
        Keyword::For => {
            let r = vec![102u8, 111u8, 114u8];
            assert(r@ =~= keyword_bytes(k));
            r
        },
        Keyword::Similar => {
            let r = vec![115u8, 105u8, 109u8, 105u8, 108u8, 97u8, 114u8];
            assert(r@ =~= keyword_bytes(k));
            r
        },
        Keyword::Has => {
            let r = vec![104u8, 97u8, 115u8];
            assert(r@ =~= keyword_bytes(k));
            r
        },
        Keyword::And => {
            let r = vec![97u8, 110u8, 100u8];
            assert(r@ =~= keyword_bytes(k));
            r
        },
        Keyword::Or => {
            let r = vec![111u8, 114u8];
            assert(r@ =~= keyword_bytes(k));
            r
        },
    }
}

/// A copy of a byte slice.
pub fn slice_to_vec(s: &[u8]) -> (r: Vec<u8>)
    ensures
        r@ == s@,
{
    let mut r: Vec<u8> = Vec::new();
    let mut i: usize = 0;
    while i < s.len()
        invariant
            i <= s@.len(),
            r@ == s@.take(i as int),
        decreases s@.len() - i,
    {
        r.push(s[i]);
        i = i + 1;
        assert(r@ =~= s@.take(i as int));
    }
    assert(s@.take(s@.len() as int) =~= s@);
    r
}

} // verus!
