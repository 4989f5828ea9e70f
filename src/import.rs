//! Turning imported rows into transactions: the amount is taken as its
//! magnitude, the offset leg as its negation, and the date is read in a
//! caller's format (`%d/%m/%Y` by default).

use crate::amount::{decimal_units, parse_decimal};
use crate::date::Date;
use crate::utils::date_triple;
use chrono::Datelike;
use vstd::prelude::*;

verus! {

/// What chrono's `NaiveDate::parse_from_str` makes of a text in a format,
/// as (year, month, day).
pub uninterp spec fn date_in_format(s: Seq<char>, fmt: Seq<char>) -> Option<(int, int, int)>;

/// Relies on chrono's `NaiveDate::parse_from_str`: reads a date in a
/// strftime-style format into a valid calendar date, or fails.
#[verifier::external_body]
fn parse_date_in(s: &str, fmt: &str) -> (r: Option<Date>)
    ensures
        match r {
            Some(d) => d.wf() && date_in_format(s@, fmt@) == Some(date_triple(d)),
            None => date_in_format(s@, fmt@) is None,
        },
{
    match chrono::NaiveDate::parse_from_str(s, fmt) {
        Ok(d) => Some(Date { year: d.year(), month: d.month(), day: d.day() }),
        Err(_) => None,
    }
}

/// The format of imported dates where none is given.
pub open spec fn default_format() -> Seq<char> {
    "%d/%m/%Y"@
}

pub open spec fn format_of(format: Option<&str>) -> Seq<char> {
    match format {
        Some(f) => f@,
        None => default_format(),
    }
}

pub open spec fn magnitude(v: int) -> int {
    if v < 0 { -v } else { v }
}

/// An imported transaction; amounts in millionths.
#[derive(Debug, Clone)]
pub struct ImportedTransaction {
    pub date: Date,
    pub account: String,
    pub payee: Option<String>,
    pub amount: i64,
    pub offset_account: Option<String>,
    pub offset_amount: i64,
}

/// Why a row cannot be imported.
#[derive(Debug, Clone)]
pub enum ImportError {
    /// The date does not read in the format.
    InvalidDate(String),
    /// The amount is not decimal text.
    InvalidAmount(String),
}

/// One imported row: the date read in `format` (`%d/%m/%Y` where none is
/// given), the amount's magnitude, and its negation as the offset amount.
pub fn import_row(
    date: &str,
    format: Option<&str>,
    account: String,
    payee: Option<String>,
    amount: &str,
    offset_account: Option<String>,
) -> (r: Result<ImportedTransaction, ImportError>)
    ensures
        match r {
            Ok(t) => {
                &&& date_in_format(date@, format_of(format)) == Some(date_triple(t.date))
                &&& t.date.wf()
                &&& decimal_units(amount@) is Some
                &&& t.amount == magnitude(decimal_units(amount@)->Some_0)
                &&& t.offset_amount == -t.amount
                &&& t.account == account && t.payee == payee && t.offset_account == offset_account
            },
            Err(ImportError::InvalidDate(s)) => date_in_format(date@, format_of(format)) is None
                && s@ == date@,
            Err(ImportError::InvalidAmount(s)) => date_in_format(date@, format_of(format)) is Some
                && decimal_units(amount@) is None && s@ == amount@,
        },
{
    let fmt = match format {
        Some(f) => f,
        None => "%d/%m/%Y",
    };
    let d = match parse_date_in(date, fmt) {
        Some(d) => d,
        None => {
            return Err(ImportError::InvalidDate(date.to_owned()));
        },
    };
    let v = match parse_decimal(amount) {
        Some(v) => v,
        None => {
            return Err(ImportError::InvalidAmount(amount.to_owned()));
        },
    };
    let a: i64 = if v < 0 {
        -v
    } else {
        v
    };
    Ok(ImportedTransaction { date: d, account, payee, amount: a, offset_account, offset_amount: -a })
}

} // verus!
