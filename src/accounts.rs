//! Accounts and account types.
//!
//! An account is declared with a name, an opening date, a currency (any
//! code) and a type; an opening balance is optional.

use crate::date::{today, Date};
use crate::text::{strip_quotes, strip_quotes_of, text_is};
use vstd::prelude::*;

verus! {

/// The closed set of account types.
#[derive(Debug, Clone, Copy, PartialEq, Eq, Structural, PartialOrd, Ord, Hash)]
pub enum AccountType {
    Assets,
    Income,
    Liabilities,
    Expenses,
    Equity,
    Stocks,
    MutualFunds,
    Holdings,
    Cash,
    Unknown,
}

/// The type that a type name stands for; a name not in the list is
/// `Unknown`.
pub open spec fn account_type_of(s: Seq<char>) -> AccountType {
    if s == "Assets"@ {
        AccountType::Assets
    } else if s == "Income"@ {
        AccountType::Income
    } else if s == "Liabilities"@ {
        AccountType::Liabilities
    } else if s == "Expenses"@ {
        AccountType::Expenses
    } else if s == "Equity"@ {
        AccountType::Equity
    } else if s == "Stocks"@ {
        AccountType::Stocks
    } else if s == "MutualFunds"@ {
        AccountType::MutualFunds
    } else if s == "Holdings"@ {
        AccountType::Holdings
    } else if s == "Cash"@ {
        AccountType::Cash
    } else {
        AccountType::Unknown
    }
}

/// The name of each type.
pub open spec fn account_type_name(t: AccountType) -> Seq<char> {
    match t {
        AccountType::Assets => "Assets"@,
        AccountType::Income => "Income"@,
        AccountType::Liabilities => "Liabilities"@,
        AccountType::Expenses => "Expenses"@,
        AccountType::Equity => "Equity"@,
        AccountType::Stocks => "Stocks"@,
        AccountType::MutualFunds => "MutualFunds"@,
        AccountType::Holdings => "Holdings"@,
        AccountType::Cash => "Cash"@,
        AccountType::Unknown => "Unknown"@,
    }
}

impl AccountType {
    /// Reads a type name; never fails: a name not in the list gives
    /// `Unknown`.
    pub fn from_str(input: &str) -> (r: Result<AccountType, ()>)
        ensures
            r == Ok::<AccountType, ()>(account_type_of(input@)),
    {
        if text_is(input, "Assets") {
            Ok(AccountType::Assets)
        } else if text_is(input, "Income") {
            Ok(AccountType::Income)
        } else if text_is(input, "Liabilities") {
            Ok(AccountType::Liabilities)
        } else if text_is(input, "Expenses") {
            Ok(AccountType::Expenses)
        } else if text_is(input, "Equity") {
            Ok(AccountType::Equity)
        } else if text_is(input, "Stocks") {
            Ok(AccountType::Stocks)
        } else if text_is(input, "MutualFunds") {
            Ok(AccountType::MutualFunds)
        } else if text_is(input, "Holdings") {
            Ok(AccountType::Holdings)
        } else if text_is(input, "Cash") {
            Ok(AccountType::Cash)
        } else {
            Ok(AccountType::Unknown)
        }
    }

    /// The type's name.
    pub fn name(&self) -> (r: String)
        ensures
            r@ == account_type_name(*self),
    {
        match self {
            AccountType::Assets => "Assets".to_owned(),
            AccountType::Income => "Income".to_owned(),
            AccountType::Liabilities => "Liabilities".to_owned(),
            AccountType::Expenses => "Expenses".to_owned(),
            AccountType::Equity => "Equity".to_owned(),
            AccountType::Stocks => "Stocks".to_owned(),
            AccountType::MutualFunds => "MutualFunds".to_owned(),
            AccountType::Holdings => "Holdings".to_owned(),
            AccountType::Cash => "Cash".to_owned(),
            AccountType::Unknown => "Unknown".to_owned(),
        }
    }
}

/// A declared account. `opening_balance` is in millionths.
#[derive(Debug, Clone)]
pub struct Account {
    pub name: String,
    pub open: Date,
    pub currency: String,
    pub account_type: AccountType,
    pub opening_balance: Option<i64>,
}

impl Account {
    /// An account; double quotes are stripped from the name and currency.
    pub fn new(
        name: String,
        open: Date,
        currency: String,
        account_type: AccountType,
        opening_balance: Option<i64>,
    ) -> (r: Account)
        ensures
            r.name@ == strip_quotes(name@),
            r.open == open,
            r.currency@ == strip_quotes(currency@),
            r.account_type == account_type,
            r.opening_balance == opening_balance,
    {
        Account {
            name: strip_quotes_of(name.as_str()),
            open,
            currency: strip_quotes_of(currency.as_str()),
            account_type,
            opening_balance,
        }
    }
}

impl Default for Account {
    /// `new_account`, opened today, in USD, of type `Assets`, with no
    /// opening balance.
    fn default() -> (r: Account)
        ensures
            r.name@ == "new_account"@,
            r.open.wf(),
            r.currency@ == "USD"@,
            r.account_type == AccountType::Assets,
            r.opening_balance is None,
    {
        Account {
            name: "new_account".to_owned(),
            open: today(),
            currency: "USD".to_owned(),
            account_type: AccountType::Assets,
            opening_balance: None,
        }
    }
}

} // verus!
