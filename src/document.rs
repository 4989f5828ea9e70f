//! Loading a ledger from a TOML document with `account`, `transaction` and
//! `price` arrays of tables.

use crate::accounts::Account;
use crate::ledger::Ledger;
use crate::price::Price;
use crate::transaction::Transaction;
use crate::utils::{
    account_error, account_from, load_account, load_price, load_transaction, price_error,
    price_from, transaction_error, transaction_from, Field, LoadError, Record, RecordKind,
};
use toml::Value;
use vstd::prelude::*;

verus! {

/// Why a document cannot be loaded.
#[derive(Debug, Clone)]
pub enum DocumentError {
    /// The text is not TOML; the parser's message.
    Syntax(String),
    /// A record cannot be read.
    Record(LoadError),
}

/// Whether `toml::from_str` reads the text as a TOML document.
pub uninterp spec fn toml_parses(s: Seq<char>) -> bool;

/// The tables of the array `kind` of a TOML text, as records: what
/// `toml::from_str` reads from the text, taken apart field by field.
pub uninterp spec fn toml_records(s: Seq<char>, kind: Seq<char>) -> Seq<Record>;

/// Relies on `toml::from_str`: whether the text is a TOML document, with
/// the parser's message where it is not. An empty text is an empty document.
#[verifier::external_body]
fn parse_document(text: &str) -> (r: Result<(), String>)
    ensures
        r is Ok <==> toml_parses(text@),
        text@.len() == 0 ==> r is Ok,
{
    toml::from_str::<Value>(text).map(|_| ()).map_err(|e| e.to_string())
}

/// Relies on `toml::from_str`, `Value::get` and `Value::as_table`: the
/// tables of the array `kind`, each field as text, an integer, decimal text
/// or date text; none where the text is not TOML or has no such array (an
/// empty text has none).
#[verifier::external_body]
fn records_in(text: &str, kind: &str) -> (r: Vec<Record>)
    ensures
        r@ == toml_records(text@, kind@),
        text@.len() == 0 ==> r@.len() == 0,
{
    let mut out = Vec::new();
    if let Ok(Value::Table(doc)) = toml::from_str::<Value>(text) {
        if let Some(Value::Array(list)) = doc.get(kind) {
            for v in list {
                let mut fields = Vec::new();
                for (k, x) in v.as_table().into_iter().flatten() {
                    let f = match x { Value::String(t) => Field::Text(t.clone()), Value::Integer(i) => Field::Integer(*i), Value::Float(n) => Field::Decimal(n.to_string()), Value::Datetime(d) => Field::Date(d.to_string()), _ => Field::Other };
                    fields.push((k.clone(), f));
                }
                out.push(Record { fields });
            }
        }
    }
    out
}

/// The first record that cannot be read is `rs[i]`.
pub open spec fn first_failing<T>(rs: Seq<Record>, err: spec_fn(Record) -> Option<T>, i: int) -> bool {
    0 <= i < rs.len() && err(rs[i]) is Some && forall|j: int| 0 <= j < i ==> err(#[trigger] rs[j]) is None
}

/// Every record of the three lists can be read.
pub open spec fn all_loadable(accounts: Seq<Record>, transactions: Seq<Record>, prices: Seq<Record>) -> bool {
    &&& forall|i: int| 0 <= i < accounts.len() ==> account_error(#[trigger] accounts[i]) is None
    &&& forall|i: int| 0 <= i < transactions.len() ==> transaction_error(#[trigger] transactions[i]) is None
    &&& forall|i: int| 0 <= i < prices.len() ==> price_error(#[trigger] prices[i]) is None
}

/// `l` holds what the three lists declare, record for record.
pub open spec fn loaded_from(
    accounts: Seq<Record>,
    transactions: Seq<Record>,
    prices: Seq<Record>,
    l: Ledger,
) -> bool {
    &&& l.wf()
    &&& l.accounts@.len() == accounts.len()
    &&& forall|i: int| 0 <= i < accounts.len() ==> account_from(accounts[i], #[trigger] l.accounts@[i])
    &&& l.transactions@.len() == transactions.len()
    &&& forall|i: int|
        0 <= i < transactions.len() ==> transaction_from(transactions[i], #[trigger] l.transactions@[i])
    &&& l.prices@.len() == prices.len()
    &&& forall|i: int| 0 <= i < prices.len() ==> price_from(prices[i], #[trigger] l.prices@[i])
}

/// `e` is the first failure: in the first list that has an unreadable
/// record, its first such record, naming the kind of record, the field and
/// what is wrong with it.
pub open spec fn first_load_error(
    accounts: Seq<Record>,
    transactions: Seq<Record>,
    prices: Seq<Record>,
    e: LoadError,
) -> bool {
    if exists|i: int| 0 <= i < accounts.len() && account_error(#[trigger] accounts[i]) is Some {
        e.record == RecordKind::Account && exists|i: int|
            first_failing(accounts, |x: Record| account_error(x), i) && account_error(accounts[i])
                == Some((e.kind, e.field@))
    } else if exists|i: int|
        0 <= i < transactions.len() && transaction_error(#[trigger] transactions[i]) is Some {
        e.record == RecordKind::Transaction && exists|i: int|
            first_failing(transactions, |x: Record| transaction_error(x), i) && transaction_error(
                transactions[i],
            ) == Some((e.kind, e.field@))
    } else {
        e.record == RecordKind::Price && exists|i: int|
            first_failing(prices, |x: Record| price_error(x), i) && price_error(prices[i]) == Some(
                (e.kind, e.field@),
            )
    }
}

impl Ledger {
    /// Reads account records; fails on the first that cannot be read.
    pub fn _get_accounts(account_list: &Vec<Record>) -> (r: Result<Vec<Account>, LoadError>)
        ensures
            r is Ok <==> forall|i: int| 0 <= i < account_list@.len() ==> account_error(#[trigger] account_list@[i]) is None,
            match r {
                Ok(v) => v@.len() == account_list@.len() && forall|i: int|
                    0 <= i < v@.len() ==> account_from(account_list@[i], #[trigger] v@[i]),
                Err(e) => e.record == RecordKind::Account && exists|i: int|
                    first_failing(account_list@, |x: Record| account_error(x), i) && account_error(
                        account_list@[i],
                    ) == Some((e.kind, e.field@)),
            },
    {
        let mut v: Vec<Account> = Vec::new();
        let mut i: usize = 0;
        while i < account_list.len()
            invariant
                i <= account_list@.len(),
                v@.len() == i,
                forall|j: int| 0 <= j < i ==> account_error(#[trigger] account_list@[j]) is None,
                forall|j: int| 0 <= j < i ==> account_from(account_list@[j], #[trigger] v@[j]),
            decreases account_list@.len() - i,
        {
            match load_account(&account_list[i]) {
                Ok(a) => {
                    v.push(a);
                },
                Err(e) => {
                    proof {
                        assert(first_failing(account_list@, |x: Record| account_error(x), i as int));
                    }
                    return Err(e);
                },
            }
            i = i + 1;
        }
        Ok(v)
    }

    /// Reads transaction records; fails on the first that cannot be read.
    pub fn _get_transactions(transactions_list: &Vec<Record>) -> (r: Result<Vec<Transaction>, LoadError>)
        ensures
            r is Ok <==> forall|i: int| 0 <= i < transactions_list@.len() ==> transaction_error(#[trigger] transactions_list@[i]) is None,
            match r {
                Ok(v) => v@.len() == transactions_list@.len() && forall|i: int|
                    0 <= i < v@.len() ==> transaction_from(transactions_list@[i], #[trigger] v@[i]),
                Err(e) => e.record == RecordKind::Transaction && exists|i: int|
                    first_failing(transactions_list@, |x: Record| transaction_error(x), i)
                        && transaction_error(transactions_list@[i]) == Some((e.kind, e.field@)),
            },
    {
        let mut v: Vec<Transaction> = Vec::new();
        let mut i: usize = 0;
        while i < transactions_list.len()
            invariant
                i <= transactions_list@.len(),
                v@.len() == i,
                forall|j: int| 0 <= j < i ==> transaction_error(#[trigger] transactions_list@[j]) is None,
                forall|j: int| 0 <= j < i ==> transaction_from(transactions_list@[j], #[trigger] v@[j]),
            decreases transactions_list@.len() - i,
        {
            match load_transaction(&transactions_list[i]) {
                Ok(t) => {
                    v.push(t);
                },
                Err(e) => {
                    proof {
                        assert(first_failing(transactions_list@, |x: Record| transaction_error(x), i as int));
                    }
                    return Err(e);
                },
            }
            i = i + 1;
        }
        Ok(v)
    }

    /// Reads price records; fails on the first that cannot be read.
    pub fn _get_prices(price_list: &Vec<Record>) -> (r: Result<Vec<Price>, LoadError>)
        ensures
            r is Ok <==> forall|i: int| 0 <= i < price_list@.len() ==> price_error(#[trigger] price_list@[i]) is None,
            match r {
                Ok(v) => v@.len() == price_list@.len() && forall|i: int|
                    0 <= i < v@.len() ==> price_from(price_list@[i], #[trigger] v@[i]),
                Err(e) => e.record == RecordKind::Price && exists|i: int|
                    first_failing(price_list@, |x: Record| price_error(x), i) && price_error(
                        price_list@[i],
                    ) == Some((e.kind, e.field@)),
            },
    {
        let mut v: Vec<Price> = Vec::new();
        let mut i: usize = 0;
        while i < price_list.len()
            invariant
                i <= price_list@.len(),
                v@.len() == i,
                forall|j: int| 0 <= j < i ==> price_error(#[trigger] price_list@[j]) is None,
                forall|j: int| 0 <= j < i ==> price_from(price_list@[j], #[trigger] v@[j]),
            decreases price_list@.len() - i,
        {
            match load_price(&price_list[i]) {
                Ok(p) => {
                    v.push(p);
                },
                Err(e) => {
                    proof {
                        assert(first_failing(price_list@, |x: Record| price_error(x), i as int));
                    }
                    return Err(e);
                },
            }
            i = i + 1;
        }
        Ok(v)
    }

    /// A ledger read from its three lists of records: accounts first, then
    /// transactions, then prices; the first record that cannot be read is
    /// the error.
    pub fn from_records(
        accounts: &Vec<Record>,
        transactions: &Vec<Record>,
        prices: &Vec<Record>,
    ) -> (r: Result<Ledger, LoadError>)
        ensures
            r is Ok <==> all_loadable(accounts@, transactions@, prices@),
            match r {
                Ok(l) => loaded_from(accounts@, transactions@, prices@, l),
                Err(e) => first_load_error(accounts@, transactions@, prices@, e),
            },
    {
        let a = Self::_get_accounts(accounts)?;
        let t = Self::_get_transactions(transactions)?;
        let p = Self::_get_prices(prices)?;
        Ok(Ledger { accounts: a, transactions: t, prices: p })
    }

    /// A ledger read from TOML text: a text that is not TOML is a syntax
    /// error; otherwise the `account`, `transaction` and `price` arrays (an
    /// absent one is empty) are read as [`Ledger::from_records`] says.
    pub fn new(ledger_file: &str) -> (r: Result<Ledger, DocumentError>)
        ensures
            r matches Err(DocumentError::Syntax(_)) <==> !toml_parses(ledger_file@),
            toml_parses(ledger_file@) ==> {
                let a = toml_records(ledger_file@, "account"@);
                let t = toml_records(ledger_file@, "transaction"@);
                let p = toml_records(ledger_file@, "price"@);
                &&& r is Ok <==> all_loadable(a, t, p)
                &&& match r {
                    Ok(l) => loaded_from(a, t, p, l),
                    Err(DocumentError::Record(e)) => first_load_error(a, t, p, e),
                    Err(DocumentError::Syntax(_)) => false,
                }
            },
            ledger_file@.len() == 0 ==> (r matches Ok(l) && l.accounts@.len() == 0
                && l.transactions@.len() == 0 && l.prices@.len() == 0),
    {
        match parse_document(ledger_file) {
            Ok(_) => {},
            Err(m) => {
                return Err(DocumentError::Syntax(m));
            },
        }
        let accounts = records_in(ledger_file, "account");
        let transactions = records_in(ledger_file, "transaction");
        let prices = records_in(ledger_file, "price");
        match Self::from_records(&accounts, &transactions, &prices) {
            Ok(l) => Ok(l),
            Err(e) => Err(DocumentError::Record(e)),
        }
    }
}

} // verus!
