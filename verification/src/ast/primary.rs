use vstd::prelude::*;
use crate::compile::token::{TokenSpan, TokenValue, join_spans};
use super::AstErrorKind;
use super::text::{int_value_bytes, int_value_text};

verus! {

#[derive(Debug, Copy, Clone, PartialEq, Eq, PartialOrd, Ord, Structural)]
pub enum TimeSpanUnit {
    Milliseconds,
    Seconds,
    Minutes,
    Hours,
    Days,
    Weeks,
    Months,
    Years,
}

/// The largest amount of a unit that a time span part may hold; a larger
/// amount should use the next unit up.
pub open spec fn unit_max(u: TimeSpanUnit) -> i16 {
    match u {
        TimeSpanUnit::Milliseconds => 2000,
        TimeSpanUnit::Seconds => 120,
        TimeSpanUnit::Minutes => 120,
        TimeSpanUnit::Hours => 72,
        TimeSpanUnit::Days => 365,
        TimeSpanUnit::Weeks => 52,
        TimeSpanUnit::Months => 12,
        TimeSpanUnit::Years => 5,
    }
}

/// The name of each unit, as written in a time span.
pub open spec fn unit_name(u: TimeSpanUnit) -> &'static str {
    match u {
        TimeSpanUnit::Milliseconds => "milliseconds",
        TimeSpanUnit::Seconds => "seconds",
        TimeSpanUnit::Minutes => "minutes",
        TimeSpanUnit::Hours => "hours",
        TimeSpanUnit::Days => "days",
        TimeSpanUnit::Weeks => "weeks",
        TimeSpanUnit::Months => "months",
        TimeSpanUnit::Years => "years",
    }
}

impl TimeSpanUnit {
    /// The unit's name, as written in a time span.
    pub fn as_str(&self) -> (r: &'static str)
        ensures
            r == unit_name(*self),
    {
        match self {
            TimeSpanUnit::Milliseconds => "milliseconds",
            TimeSpanUnit::Seconds => "seconds",
            TimeSpanUnit::Minutes => "minutes",
            TimeSpanUnit::Hours => "hours",
            TimeSpanUnit::Days => "days",
            TimeSpanUnit::Weeks => "weeks",
            TimeSpanUnit::Months => "months",
            TimeSpanUnit::Years => "years",
        }
    }

    pub fn max_value(&self) -> (r: i16)
        ensures
            r == unit_max(*self),
    {
        match *self {
            // 2 seconds
            TimeSpanUnit::Milliseconds => 2000,
            // 2 minutes
            TimeSpanUnit::Seconds => 120,
            // 2 hours
            TimeSpanUnit::Minutes => 120,
            // 3 days
            TimeSpanUnit::Hours => 72,
            // 1 year
            TimeSpanUnit::Days => 365,
            // 1 year
            TimeSpanUnit::Weeks => 52,
            // 1 year
            TimeSpanUnit::Months => 12,
            TimeSpanUnit::Years => 5,
        }
    }
}

/// An amount of one unit of time, such as `3 hours`.
#[derive(Debug, Clone)]
pub struct TimeSpanPart {
    amount: i16,
    unit: TimeSpanUnit,
    span: TokenSpan,
}

impl TimeSpanPart {
    pub closed spec fn spec_amount(&self) -> i16 {
        self.amount
    }

    pub closed spec fn spec_unit(&self) -> TimeSpanUnit {
        self.unit
    }

    pub closed spec fn spec_span(&self) -> TokenSpan {
        self.span
    }

    /// A part of `amount` units, refused when the amount lies outside
    /// `-max..=max` for its unit.
    pub fn new(amount: TokenValue<i64>, unit: TokenValue<TimeSpanUnit>) -> (r: Result<
        Self,
        AstErrorKind,
    >)
        ensures
            ({
                let a = amount.spec_value();
                let max = unit_max(unit.spec_value()) as int;
                match r {
                    Ok(part) => -max <= a <= max && part.spec_amount() == a && part.spec_unit()
                        == unit.spec_value() && part.spec_span() == join_spans(
                        amount.spec_span(),
                        unit.spec_span(),
                    ),
                    Err(e) => !(-max <= a <= max) && (e matches AstErrorKind::ValueOutOfRange(
                        text,
                        why,
                        span,
                    ) && text@ == int_value_text(amount) && why == if unit.spec_value() == TimeSpanUnit::Years {
                        YEARS_REASON
                    } else {
                        UNIT_REASON
                    } && span == amount.spec_span()),
                }
            }),
    {
        let amount_val = *amount.value();
        let unit_val = *unit.value();
        let max = unit_val.max_value() as i64;
        if amount_val > max || amount_val < -max {
            return Err(
                AstErrorKind::ValueOutOfRange(
                    int_value_bytes(&amount),
                    if unit_val == TimeSpanUnit::Years {
                        YEARS_REASON
                    } else {
                        UNIT_REASON
                    },
                    amount.span().clone(),
                ),
            );
        }
        Ok(TimeSpanPart {
            amount: amount_val as i16,
            unit: unit_val,
            span: amount.span().from_to(unit.span()),
        })
    }

    pub fn amount(&self) -> (r: i16)
        ensures
            r == self.spec_amount(),
    {
        self.amount
    }

    pub fn unit(&self) -> (r: TimeSpanUnit)
        ensures
            r == self.spec_unit(),
    {
        self.unit
    }

    pub fn span(&self) -> (r: &TokenSpan)
        ensures
            *r == self.spec_span(),
    {
        &self.span
    }
}

/// Why a number of years is out of range.
pub const YEARS_REASON: &'static str = "let's be realistic here";

/// Why an amount of any other unit is out of range.
pub const UNIT_REASON: &'static str = "use the next unit up for larger time span values (e.g. '300 minutes' becomes '3 hours 30 minutes')";

} // verus!
