//! Transactions: two-legged postings.

use crate::date::Date;
use crate::text::{strip_quotes, strip_quotes_of};
use vstd::prelude::*;

verus! {

/// A posting pair: `amount * quantity` to `account`, `offset_amount` to
/// `offset_account`. Amounts and the quantity are in millionths.
#[derive(Debug, Clone)]
pub struct Transaction {
    pub date: Date,
    pub account: String,
    pub note: Option<String>,
    pub payee: Option<String>,
    pub quantity: i64,
    pub amount: i64,
    pub offset_account: String,
    pub offset_amount: i64,
}

impl Transaction {
    /// A transaction; double quotes are stripped from both account names.
    pub fn new(
        date: Date,
        account: String,
        payee: Option<String>,
        quantity: i64,
        amount: i64,
        offset_account: String,
        offset_amount: i64,
        note: Option<String>,
    ) -> (r: Transaction)
        ensures
            r.date == date,
            r.account@ == strip_quotes(account@),
            r.payee == payee,
            r.quantity == quantity,
            r.amount == amount,
            r.offset_account@ == strip_quotes(offset_account@),
            r.offset_amount == offset_amount,
            r.note == note,
    {
        Transaction {
            date,
            account: strip_quotes_of(account.as_str()),
            payee,
            quantity,
            amount,
            offset_account: strip_quotes_of(offset_account.as_str()),
            offset_amount,
            note,
        }
    }
}

} // verus!
