//! The operations a user can ask for, as plain data.

use vstd::prelude::*;

verus! {

/// A ledger path (a file or a directory of files) and an operation.
#[derive(Debug, Clone)]
pub struct Args {
    pub ledger: String,
    pub command: Option<Commands>,
}

/// The operations, with their options.
#[derive(Debug, Clone)]
pub enum Commands {
    /// List accounts.
    Accounts {},
    /// Balance sheet: account types, start date, end date, target currency,
    /// period unit (`M`, `Q` or `Y`).
    Balances {
        class: Option<Vec<String>>,
        from: Option<String>,
        to: Option<String>,
        price: Option<String>,
        group: Option<String>,
    },
    /// Journal: start date, end date, account type, account name, payee.
    Journal {
        from: Option<String>,
        to: Option<String>,
        class: Option<String>,
        account: Option<String>,
        payee: Option<String>,
    },
    /// Import transactions from a CSV file, with a date format.
    Import { csv: String, format: Option<String> },
}

} // verus!
