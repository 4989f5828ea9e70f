//! Reading typed entities out of declared records.
//!
//! A record is a list of keyed fields, as a structured document holds them.
//! Required fields that are absent, fields of the wrong kind and dates that
//! do not parse are errors; optional fields take their defaults.

use crate::accounts::{account_type_of, Account, AccountType};
use crate::amount::{decimal_units, parse_decimal, whole_units, MAX_UNITS, MAX_WHOLE, SCALE};
use crate::date::{iso_date_of, parse_date, Date};
use crate::price::Price;
use crate::text::{strip_quotes, text_is};
use crate::transaction::Transaction;
pub use crate::date::quarter;
use vstd::prelude::*;

verus! {

/// A field's value as the document wrote it.
#[derive(Debug, Clone)]
pub enum Field {
    Text(String),
    Integer(i64),
    /// A number with a fractional part, as decimal text.
    Decimal(String),
    /// A date or date-time, as text.
    Date(String),
    /// Anything else (a boolean, an array, a table).
    Other,
}

/// One declared record: its fields, by key.
#[derive(Debug, Clone)]
pub struct Record {
    pub fields: Vec<(String, Field)>,
}

/// The three kinds of record.
#[derive(Debug, Clone, Copy, PartialEq, Eq, Structural)]
pub enum RecordKind {
    Account,
    Transaction,
    Price,
}

#[derive(Debug, Clone, Copy, PartialEq, Eq, Structural)]
pub enum LoadErrorKind {
    MissingField,
    TypeMismatch,
    InvalidDate,
}

/// A record that cannot be read: what went wrong, in which kind of record,
/// with which field.
#[derive(Debug, Clone)]
pub struct LoadError {
    pub kind: LoadErrorKind,
    pub record: RecordKind,
    pub field: String,
}

/// `fs[i]` is the first field keyed `key`.
pub open spec fn first_key(fs: Seq<(String, Field)>, key: Seq<char>, i: int) -> bool {
    0 <= i < fs.len() && fs[i].0@ == key && forall|j: int| 0 <= j < i ==> fs[j].0@ != key
}

/// The value of the first field keyed `key`.
pub open spec fn field_of(fs: Seq<(String, Field)>, key: Seq<char>) -> Option<Field> {
    if exists|i: int| first_key(fs, key, i) {
        Some(fs[choose|i: int| first_key(fs, key, i)].1)
    } else {
        None
    }
}

/// A text field; `None` where absent.
pub open spec fn text_value(f: Option<Field>) -> Result<Option<Seq<char>>, LoadErrorKind> {
    match f {
        None => Ok(None),
        Some(Field::Text(s)) => Ok(Some(s@)),
        Some(_) => Err(LoadErrorKind::TypeMismatch),
    }
}

/// A numeric field in millionths: an integer of at most twelve digits, or
/// decimal text; `None` where absent.
pub open spec fn amount_value(f: Option<Field>) -> Result<Option<int>, LoadErrorKind> {
    match f {
        None => Ok(None),
        Some(Field::Integer(i)) => if -MAX_WHOLE < i < MAX_WHOLE {
            Ok(Some(i * SCALE))
        } else {
            Err(LoadErrorKind::TypeMismatch)
        },
        Some(Field::Decimal(s)) => match decimal_units(s@) {
            Some(v) => Ok(Some(v)),
            None => Err(LoadErrorKind::TypeMismatch),
        },
        Some(_) => Err(LoadErrorKind::TypeMismatch),
    }
}

/// A date field, written as a date or as text; `None` where absent.
pub open spec fn date_value(f: Option<Field>) -> Result<Option<(int, int, int)>, LoadErrorKind> {
    match f {
        None => Ok(None),
        Some(Field::Date(s)) => match iso_date_of(s@) {
            Some(d) => Ok(Some(d)),
            None => Err(LoadErrorKind::InvalidDate),
        },
        Some(Field::Text(s)) => match iso_date_of(s@) {
            Some(d) => Ok(Some(d)),
            None => Err(LoadErrorKind::InvalidDate),
        },
        Some(_) => Err(LoadErrorKind::TypeMismatch),
    }
}

/// A field that must be there: absence is `MissingField`.
pub open spec fn required<T>(r: Result<Option<T>, LoadErrorKind>) -> Result<T, LoadErrorKind> {
    match r {
        Ok(Some(v)) => Ok(v),
        Ok(None) => Err(LoadErrorKind::MissingField),
        Err(k) => Err(k),
    }
}

pub open spec fn date_triple(d: Date) -> (int, int, int) {
    (d.year as int, d.month as int, d.day as int)
}

impl LoadError {
    pub open spec fn is(&self, kind: LoadErrorKind, record: RecordKind, field: Seq<char>) -> bool {
        self.kind == kind && self.record == record && self.field@ == field
    }
}

impl Record {
    pub open spec fn spec_get(&self, key: Seq<char>) -> Option<Field> {
        field_of(self.fields@, key)
    }

    /// The value of the first field keyed `key`.
    pub fn get(&self, key: &str) -> (r: Option<&Field>)
        ensures
            match r {
                Some(f) => self.spec_get(key@) == Some(*f),
                None => self.spec_get(key@) is None,
            },
    {
        let mut i: usize = 0;
        while i < self.fields.len()
            invariant
                i <= self.fields@.len(),
                forall|j: int| 0 <= j < i ==> self.fields@[j].0@ != key@,
            decreases self.fields@.len() - i,
        {
            if text_is(self.fields[i].0.as_str(), key) {
                proof {
                    assert(first_key(self.fields@, key@, i as int));
                    assert forall|k: int| #[trigger] first_key(self.fields@, key@, k) implies k
                        == i by {
                        if k < i {
                        } else if k > i {
                        }
                    }
                }
                return Some(&self.fields[i].1);
            }
            i = i + 1;
        }
        None
    }
}

/// Reads a text field.
pub fn parse_value(value: &Record, key: &str) -> (r: Result<Option<String>, LoadErrorKind>)
    ensures
        match r {
            Ok(Some(s)) => text_value(value.spec_get(key@)) == Ok::<_, LoadErrorKind>(Some(s@)),
            Ok(None) => text_value(value.spec_get(key@)) == Ok::<_, LoadErrorKind>(
                None::<Seq<char>>,
            ),
            Err(k) => text_value(value.spec_get(key@)) == Err::<Option<Seq<char>>, _>(k),
        },
{
    match value.get(key) {
        None => Ok(None),
        Some(Field::Text(s)) => Ok(Some(s.clone())),
        Some(_) => Err(LoadErrorKind::TypeMismatch),
    }
}

/// Reads a numeric field into millionths.
pub fn parse_value_to_amount(value: &Record, key: &str) -> (r: Result<Option<i64>, LoadErrorKind>)
    ensures
        match r {
            Ok(Some(v)) => amount_value(value.spec_get(key@)) == Ok::<_, LoadErrorKind>(
                Some(v as int),
            ) && -MAX_UNITS < v < MAX_UNITS,
            Ok(None) => amount_value(value.spec_get(key@)) == Ok::<_, LoadErrorKind>(
                None::<int>,
            ),
            Err(k) => amount_value(value.spec_get(key@)) == Err::<Option<int>, _>(k),
        },
{
    match value.get(key) {
        None => Ok(None),
        Some(Field::Integer(i)) => match whole_units(*i) {
            Some(v) => Ok(Some(v)),
            None => Err(LoadErrorKind::TypeMismatch),
        },
        Some(Field::Decimal(s)) => match parse_decimal(s.as_str()) {
            Some(v) => Ok(Some(v)),
            None => Err(LoadErrorKind::TypeMismatch),
        },
        Some(_) => Err(LoadErrorKind::TypeMismatch),
    }
}

/// Reads a date field, written as a date or as `YYYY-MM-DD` text.
pub fn parse_value_to_naivedate(val: &Record, col: &str) -> (r: Result<Option<Date>, LoadErrorKind>)
    ensures
        match r {
            Ok(Some(d)) => date_value(val.spec_get(col@)) == Ok::<_, LoadErrorKind>(
                Some(date_triple(d)),
            ) && d.wf(),
            Ok(None) => date_value(val.spec_get(col@)) == Ok::<_, LoadErrorKind>(
                None::<(int, int, int)>,
            ),
            Err(k) => date_value(val.spec_get(col@)) == Err::<Option<(int, int, int)>, _>(k),
        },
{
    match val.get(col) {
        None => Ok(None),
        Some(Field::Date(s)) => match parse_date(s.as_str()) {
            Some(d) => Ok(Some(d)),
            None => Err(LoadErrorKind::InvalidDate),
        },
        Some(Field::Text(s)) => match parse_date(s.as_str()) {
            Some(d) => Ok(Some(d)),
            None => Err(LoadErrorKind::InvalidDate),
        },
        Some(_) => Err(LoadErrorKind::TypeMismatch),
    }
}


/// The first failing field of a chain of checks.
pub open spec fn check<T>(
    res: Result<T, LoadErrorKind>,
    key: Seq<char>,
    rest: Option<(LoadErrorKind, Seq<char>)>,
) -> Option<(LoadErrorKind, Seq<char>)> {
    match res {
        Err(k) => Some((k, key)),
        Ok(_) => rest,
    }
}

pub open spec fn same_text(o: Option<String>, v: Option<Seq<char>>) -> bool {
    match o {
        Some(s) => v == Some(s@),
        None => v is None,
    }
}

pub open spec fn same_amount(o: Option<i64>, v: Option<int>) -> bool {
    match o {
        Some(x) => v == Some(x as int),
        None => v is None,
    }
}

/// Why an account record cannot be read: the first failing field, in the
/// order name, open, currency, type, opening_balance.
pub open spec fn account_error(r: Record) -> Option<(LoadErrorKind, Seq<char>)> {
    check(
        required(text_value(r.spec_get("name"@))),
        "name"@,
        check(
            required(date_value(r.spec_get("open"@))),
            "open"@,
            check(
                required(text_value(r.spec_get("currency"@))),
                "currency"@,
                check(
                    required(text_value(r.spec_get("type"@))),
                    "type"@,
                    check(amount_value(r.spec_get("opening_balance"@)), "opening_balance"@, None),
                ),
            ),
        ),
    )
}

/// `a` is the account that record `r` declares.
pub open spec fn account_from(r: Record, a: Account) -> bool {
    &&& a.name@ == strip_quotes(required(text_value(r.spec_get("name"@)))->Ok_0)
    &&& a.open.wf() && date_triple(a.open) == required(date_value(r.spec_get("open"@)))->Ok_0
    &&& a.currency@ == strip_quotes(required(text_value(r.spec_get("currency"@)))->Ok_0)
    &&& a.account_type == account_type_of(required(text_value(r.spec_get("type"@)))->Ok_0)
    &&& same_amount(a.opening_balance, amount_value(r.spec_get("opening_balance"@))->Ok_0)
}

/// Why a transaction record cannot be read: the first failing field, in
/// the order account, date, payee, quantity, amount, offset_account,
/// offset_amount, note.
pub open spec fn transaction_error(r: Record) -> Option<(LoadErrorKind, Seq<char>)> {
    check(
        required(text_value(r.spec_get("account"@))),
        "account"@,
        check(
            required(date_value(r.spec_get("date"@))),
            "date"@,
            check(
                text_value(r.spec_get("payee"@)),
                "payee"@,
                check(
                    amount_value(r.spec_get("quantity"@)),
                    "quantity"@,
                    check(
                        required(amount_value(r.spec_get("amount"@))),
                        "amount"@,
                        check(
                            required(text_value(r.spec_get("offset_account"@))),
                            "offset_account"@,
                            check(
                                amount_value(r.spec_get("offset_amount"@)),
                                "offset_amount"@,
                                check(text_value(r.spec_get("note"@)), "note"@, None),
                            ),
                        ),
                    ),
                ),
            ),
        ),
    )
}

/// `t` is the transaction that record `r` declares: the quantity defaults
/// to one, the offset amount to the negated amount.
pub open spec fn transaction_from(r: Record, t: Transaction) -> bool {
    let amount = required(amount_value(r.spec_get("amount"@)))->Ok_0;
    &&& t.account@ == strip_quotes(required(text_value(r.spec_get("account"@)))->Ok_0)
    &&& t.date.wf() && date_triple(t.date) == required(date_value(r.spec_get("date"@)))->Ok_0
    &&& same_text(t.payee, text_value(r.spec_get("payee"@))->Ok_0)
    &&& t.quantity == match amount_value(r.spec_get("quantity"@))->Ok_0 {
        Some(q) => q,
        None => SCALE as int,
    }
    &&& t.amount == amount
    &&& t.offset_account@ == strip_quotes(
        required(text_value(r.spec_get("offset_account"@)))->Ok_0,
    )
    &&& t.offset_amount == match amount_value(r.spec_get("offset_amount"@))->Ok_0 {
        Some(o) => o,
        None => -amount,
    }
    &&& same_text(t.note, text_value(r.spec_get("note"@))->Ok_0)
}

/// Why a price record cannot be read: the first failing field, in the order
/// date, commodity, price, currency.
pub open spec fn price_error(r: Record) -> Option<(LoadErrorKind, Seq<char>)> {
    check(
        required(date_value(r.spec_get("date"@))),
        "date"@,
        check(
            required(text_value(r.spec_get("commodity"@))),
            "commodity"@,
            check(
                required(amount_value(r.spec_get("price"@))),
                "price"@,
                check(required(text_value(r.spec_get("currency"@))), "currency"@, None),
            ),
        ),
    )
}

/// `p` is the price that record `r` declares.
pub open spec fn price_from(r: Record, p: Price) -> bool {
    &&& p.date.wf() && date_triple(p.date) == required(date_value(r.spec_get("date"@)))->Ok_0
    &&& p.commodity@ == strip_quotes(required(text_value(r.spec_get("commodity"@)))->Ok_0)
    &&& p.price == required(amount_value(r.spec_get("price"@)))->Ok_0
    &&& p.currency@ == strip_quotes(required(text_value(r.spec_get("currency"@)))->Ok_0)
}

/// An account record whose name, opening date and currency read but which
/// has no `type` field cannot be read: the error is `MissingField` on
/// `type`, never a defaulted type.
pub proof fn lemma_missing_type_is_fatal(r: Record)
    requires
        required(text_value(r.spec_get("name"@))) is Ok,
        required(date_value(r.spec_get("open"@))) is Ok,
        required(text_value(r.spec_get("currency"@))) is Ok,
        r.spec_get("type"@) is None,
    ensures
        account_error(r) == Some((LoadErrorKind::MissingField, "type"@)),
{
}

/// An account read from a record whose type is text outside the list of
/// type names has type `Unknown`.
pub proof fn lemma_unlisted_type_is_unknown(r: Record, a: Account, s: Seq<char>)
    requires
        account_from(r, a),
        required(text_value(r.spec_get("type"@))) == Ok::<Seq<char>, LoadErrorKind>(s),
        s != "Assets"@ && s != "Income"@ && s != "Liabilities"@ && s != "Expenses"@ && s
            != "Equity"@,
        s != "Stocks"@ && s != "MutualFunds"@ && s != "Holdings"@ && s != "Cash"@,
    ensures
        a.account_type == AccountType::Unknown,
{
}

/// A transaction read from a record without `offset_amount` has exactly the
/// negated amount as its offset amount.
pub proof fn lemma_omitted_offset_is_negated_amount(r: Record, t: Transaction)
    requires
        transaction_from(r, t),
        r.spec_get("offset_amount"@) is None,
    ensures
        t.offset_amount == -t.amount,
{
}

fn load_error(kind: LoadErrorKind, record: RecordKind, field: &str) -> (r: LoadError)
    ensures
        r.is(kind, record, field@),
{
    LoadError { kind, record, field: field.to_owned() }
}

fn require_text(rec: &Record, key: &str, kind: RecordKind) -> (r: Result<String, LoadError>)
    ensures
        match r {
            Ok(s) => required(text_value(rec.spec_get(key@))) == Ok::<_, LoadErrorKind>(s@),
            Err(e) => e.record == kind && e.field@ == key@ && required(
                text_value(rec.spec_get(key@)),
            ) == Err::<Seq<char>, _>(e.kind),
        },
{
    match parse_value(rec, key) {
        Ok(Some(s)) => Ok(s),
        Ok(None) => Err(load_error(LoadErrorKind::MissingField, kind, key)),
        Err(k) => Err(load_error(k, kind, key)),
    }
}

fn optional_text(rec: &Record, key: &str, kind: RecordKind) -> (r: Result<Option<String>, LoadError>)
    ensures
        match r {
            Ok(o) => text_value(rec.spec_get(key@)) is Ok && same_text(
                o,
                text_value(rec.spec_get(key@))->Ok_0,
            ),
            Err(e) => e.record == kind && e.field@ == key@ && text_value(rec.spec_get(key@))
                == Err::<Option<Seq<char>>, _>(e.kind),
        },
{
    match parse_value(rec, key) {
        Ok(o) => Ok(o),
        Err(k) => Err(load_error(k, kind, key)),
    }
}

fn require_date(rec: &Record, key: &str, kind: RecordKind) -> (r: Result<Date, LoadError>)
    ensures
        match r {
            Ok(d) => d.wf() && required(date_value(rec.spec_get(key@))) == Ok::<_, LoadErrorKind>(
                date_triple(d),
            ),
            Err(e) => e.record == kind && e.field@ == key@ && required(
                date_value(rec.spec_get(key@)),
            ) == Err::<(int, int, int), _>(e.kind),
        },
{
    match parse_value_to_naivedate(rec, key) {
        Ok(Some(d)) => Ok(d),
        Ok(None) => Err(load_error(LoadErrorKind::MissingField, kind, key)),
        Err(k) => Err(load_error(k, kind, key)),
    }
}

fn require_amount(rec: &Record, key: &str, kind: RecordKind) -> (r: Result<i64, LoadError>)
    ensures
        match r {
            Ok(v) => required(amount_value(rec.spec_get(key@))) == Ok::<_, LoadErrorKind>(v as int)
                && -MAX_UNITS < v < MAX_UNITS,
            Err(e) => e.record == kind && e.field@ == key@ && required(
                amount_value(rec.spec_get(key@)),
            ) == Err::<int, _>(e.kind),
        },
{
    match parse_value_to_amount(rec, key) {
        Ok(Some(v)) => Ok(v),
        Ok(None) => Err(load_error(LoadErrorKind::MissingField, kind, key)),
        Err(k) => Err(load_error(k, kind, key)),
    }
}

fn optional_amount(rec: &Record, key: &str, kind: RecordKind) -> (r: Result<Option<i64>, LoadError>)
    ensures
        match r {
            Ok(o) => amount_value(rec.spec_get(key@)) is Ok && same_amount(
                o,
                amount_value(rec.spec_get(key@))->Ok_0,
            ),
            Err(e) => e.record == kind && e.field@ == key@ && amount_value(rec.spec_get(key@))
                == Err::<Option<int>, _>(e.kind),
        },
{
    match parse_value_to_amount(rec, key) {
        Ok(o) => Ok(o),
        Err(k) => Err(load_error(k, kind, key)),
    }
}

/// Reads an account record. A missing `type` is an error; a type name not
/// in the list reads as `Unknown`.
pub fn load_account(rec: &Record) -> (r: Result<Account, LoadError>)
    ensures
        r is Ok <==> account_error(*rec) is None,
        match r {
            Ok(a) => account_from(*rec, a),
            Err(e) => e.record == RecordKind::Account && account_error(*rec) == Some(
                (e.kind, e.field@),
            ),
        },
{
    let name = require_text(rec, "name", RecordKind::Account)?;
    let open = require_date(rec, "open", RecordKind::Account)?;
    let currency = require_text(rec, "currency", RecordKind::Account)?;
    let kind_text = require_text(rec, "type", RecordKind::Account)?;
    let opening_balance = optional_amount(rec, "opening_balance", RecordKind::Account)?;
    let account_type = match AccountType::from_str(kind_text.as_str()) {
        Ok(t) => t,
        Err(_) => AccountType::Unknown,
    };
    Ok(Account::new(name, open, currency, account_type, opening_balance))
}

/// Reads a transaction record. The quantity defaults to one; an omitted
/// offset amount is exactly the negated amount.
pub fn load_transaction(rec: &Record) -> (r: Result<Transaction, LoadError>)
    ensures
        r is Ok <==> transaction_error(*rec) is None,
        match r {
            Ok(t) => transaction_from(*rec, t) && (rec.spec_get("offset_amount"@) is None
                ==> t.offset_amount == -t.amount),
            Err(e) => e.record == RecordKind::Transaction && transaction_error(*rec) == Some(
                (e.kind, e.field@),
            ),
        },
{
    let account = require_text(rec, "account", RecordKind::Transaction)?;
    let date = require_date(rec, "date", RecordKind::Transaction)?;
    let payee = optional_text(rec, "payee", RecordKind::Transaction)?;
    let quantity = optional_amount(rec, "quantity", RecordKind::Transaction)?;
    let amount = require_amount(rec, "amount", RecordKind::Transaction)?;
    let offset_account = require_text(rec, "offset_account", RecordKind::Transaction)?;
    let offset_amount = optional_amount(rec, "offset_amount", RecordKind::Transaction)?;
    let note = optional_text(rec, "note", RecordKind::Transaction)?;
    let quantity = match quantity {
        Some(q) => q,
        None => SCALE,
    };
    let offset_amount = match offset_amount {
        Some(o) => o,
        None => -amount,
    };
    Ok(Transaction::new(date, account, payee, quantity, amount, offset_account, offset_amount, note))
}

/// Reads a price record.
pub fn load_price(rec: &Record) -> (r: Result<Price, LoadError>)
    ensures
        r is Ok <==> price_error(*rec) is None,
        match r {
            Ok(p) => price_from(*rec, p),
            Err(e) => e.record == RecordKind::Price && price_error(*rec) == Some((e.kind, e.field@)),
        },
{
    let date = require_date(rec, "date", RecordKind::Price)?;
    let commodity = require_text(rec, "commodity", RecordKind::Price)?;
    let price = require_amount(rec, "price", RecordKind::Price)?;
    let currency = require_text(rec, "currency", RecordKind::Price)?;
    Ok(Price::new(date, commodity, price, currency))
}

} // verus!
