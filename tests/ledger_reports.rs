use abacus::accounts::AccountType;
use abacus::amount::SCALE;
use abacus::date::Date;
use abacus::document::DocumentError;
use abacus::import::{import_row, ImportError};
use abacus::ledger::{Ledger, ValidationError};
use abacus::periods::period_key;
use abacus::reports::LedgerError;
use abacus::utils::{load_account, load_transaction, Field, LoadErrorKind, Record, RecordKind};

fn day(y: i32, m: u32, d: u32) -> Date {
    Date::new(y, m, d).unwrap()
}

fn text(k: &str, v: &str) -> (String, Field) {
    (k.to_string(), Field::Text(v.to_string()))
}

const DINING: &str = r#"
[[account]]
open = 2023-09-30
name = "Dining"
type = "Expenses"
currency = "USD"

[[account]]
open = 2023-09-30
name = "Wallet"
type = "Assets"
currency = "USD"

[[transaction]]
date = 2023-10-10
account = "Dining"
amount = 20.0
offset_account = "Wallet"
"#;

#[test]
fn journal_of_one_posting_pair() {
    let ledger = Ledger::new(DINING).unwrap();
    let entries = ledger.journal(None, None, None, None, None).unwrap();
    assert_eq!(entries, vec![0]);
    let t = &ledger.transactions[entries[0]];
    assert_eq!(t.date, day(2023, 10, 10));
    assert_eq!(t.account, "Dining");
    assert_eq!(t.amount, 20 * SCALE);
    assert_eq!(t.offset_account, "Wallet");
    assert_eq!(t.offset_amount, -20 * SCALE);
}

#[test]
fn unbalanced_transaction_stops_reports() {
    let doc = r#"
[[account]]
open = 2023-01-01
name = "A"
type = "Assets"
currency = "USD"

[[account]]
open = 2023-01-01
name = "B"
type = "Expenses"
currency = "USD"

[[transaction]]
date = 2023-02-01
account = "A"
amount = 10
offset_account = "B"
offset_amount = -5
"#;
    let ledger = Ledger::new(doc).unwrap();
    assert!(matches!(ledger.validate_transactions(), Err(ValidationError::UnbalancedTransaction(0))));
    assert!(matches!(
        ledger.journal(None, None, None, None, None),
        Err(LedgerError::Invalid(ValidationError::UnbalancedTransaction(0)))
    ));
    assert!(matches!(
        ledger.balance_report(None, None, None, None, Some("M")),
        Err(LedgerError::Invalid(ValidationError::UnbalancedTransaction(0)))
    ));
}

#[test]
fn cross_currency_legs_need_not_balance() {
    let doc = r#"
[[account]]
open = 2023-01-01
name = "Wallet"
type = "Assets"
currency = "USD"

[[account]]
open = 2023-01-01
name = "Crypto"
type = "Assets"
currency = "BTC"

[[transaction]]
date = 2023-02-01
account = "Crypto"
amount = 0.5
offset_account = "Wallet"
offset_amount = -20000
"#;
    let ledger = Ledger::new(doc).unwrap();
    assert!(ledger.validate_transactions().is_ok());
}

#[test]
fn undeclared_account_is_an_error() {
    let doc = r#"
[[account]]
open = 2023-01-01
name = "Wallet"
type = "Assets"
currency = "USD"

[[transaction]]
date = 2023-02-01
account = "Ghost"
amount = 5
offset_account = "Wallet"
"#;
    let ledger = Ledger::new(doc).unwrap();
    match ledger.validate_transactions() {
        Err(ValidationError::UnknownAccount(n)) => assert_eq!(n, "Ghost"),
        _ => panic!("expected an unknown account"),
    }
}

#[test]
fn same_currency_validation_passes_when_legs_net_to_zero() {
    let doc = r#"
[[account]]
open = 2023-01-01
name = "A"
type = "Assets"
currency = "USD"

[[account]]
open = 2023-01-01
name = "B"
type = "Expenses"
currency = "USD"

[[transaction]]
date = 2023-02-01
account = "A"
amount = 12.5
offset_account = "B"
offset_amount = -12.5
"#;
    let ledger = Ledger::new(doc).unwrap();
    assert!(ledger.validate_transactions().is_ok());
}

#[test]
fn balances_with_opening_balance() {
    let doc = r#"
[[account]]
open = 2023-01-01
name = "Checking"
type = "Assets"
currency = "USD"
opening_balance = 100.0

[[account]]
open = 2023-01-01
name = "Savings"
type = "Assets"
currency = "USD"

[[transaction]]
date = 2023-03-01
account = "Checking"
amount = 50.0
offset_account = "Savings"
offset_amount = -50.0
"#;
    let ledger = Ledger::new(doc).unwrap();
    let b = ledger._get_balances(&vec![0], None).unwrap();
    assert_eq!(b.get("Checking"), Some(150 * SCALE as i128));
    assert_eq!(b.get("Savings"), Some(-50 * SCALE as i128));
}

#[test]
fn quantity_multiplies_the_primary_leg_only() {
    let doc = r#"
[[account]]
open = 2023-01-01
name = "Stocks"
type = "Stocks"
currency = "VOO"

[[account]]
open = 2023-01-01
name = "Cash"
type = "Cash"
currency = "VOO"

[[transaction]]
date = 2023-03-01
account = "Stocks"
quantity = 3
amount = 2
offset_account = "Cash"
offset_amount = -2
"#;
    let ledger = Ledger::new(doc).unwrap();
    let b = ledger._get_balances(&vec![0], None).unwrap();
    assert_eq!(b.get("Stocks"), Some(6 * SCALE as i128));
    assert_eq!(b.get("Cash"), Some(-2 * SCALE as i128));
}

const CRYPTO: &str = r#"
[[account]]
open = 2023-01-01
name = "Crypto Wallet"
type = "Assets"
currency = "BTC"
opening_balance = 0.5

[[account]]
open = 2023-01-01
name = "Savings"
type = "Assets"
currency = "USD"
opening_balance = 10

[[price]]
date = 2023-01-01
commodity = "BTC"
price = 30000.0
currency = "USD"

[[price]]
date = 2023-06-01
commodity = "BTC"
price = 40000.0
currency = "USD"

[[price]]
date = 2023-07-01
commodity = "BTC"
price = 1.0
currency = "EUR"
"#;

#[test]
fn repricing_uses_the_latest_price() {
    let ledger = Ledger::new(CRYPTO).unwrap();
    let b = ledger._get_balances(&vec![], Some("USD")).unwrap();
    assert_eq!(b.get("Crypto Wallet"), Some(20_000 * SCALE as i128));
    assert_eq!(b.get("Savings"), Some(10 * SCALE as i128));
    let native = ledger._get_balances(&vec![], None).unwrap();
    assert_eq!(native.get("Crypto Wallet"), Some(SCALE as i128 / 2));
    let other = ledger._get_balances(&vec![], Some("JPY")).unwrap();
    assert_eq!(other.get("Crypto Wallet"), Some(SCALE as i128 / 2));
}

#[test]
fn overflowing_balances_are_refused() {
    let mut doc = String::new();
    for _ in 0..3 {
        doc.push_str("[[account]]\nopen = 2023-01-01\nname = \"X\"\ntype = \"Assets\"\ncurrency = \"C\"\nopening_balance = 999999999999\n\n");
    }
    doc.push_str("[[price]]\ndate = 2023-01-01\ncommodity = \"C\"\nprice = 999999999999\ncurrency = \"USD\"\n\n");
    doc.push_str("[[transaction]]\ndate = 2023-02-01\naccount = \"X\"\namount = 1\noffset_account = \"X\"\n");
    let ledger = Ledger::new(&doc).unwrap();
    assert!(ledger._get_balances(&vec![], None).is_some());
    assert!(ledger._get_balances(&vec![], Some("USD")).is_none());
    assert!(matches!(
        ledger.balance_report(None, None, None, Some("USD"), None),
        Err(LedgerError::Overflow)
    ));
}

#[test]
fn period_keys_of_a_date() {
    let d = day(2023, 5, 15);
    assert_eq!(period_key(&d, Some("Q")), (2023, 2));
    assert_eq!(period_key(&d, Some("M")), (2023, 5));
    assert_eq!(period_key(&d, Some("Y")), (2023, 2023));
    assert_eq!(period_key(&d, None), (0, 0));
    assert_eq!(period_key(&d, Some("W")), (0, 0));
}

const MONTHS: &str = r#"
[[account]]
open = 2023-01-01
name = "Salary"
type = "Income"
currency = "USD"

[[account]]
open = 2023-01-01
name = "Savings"
type = "Assets"
currency = "USD"
opening_balance = 5

[[account]]
open = 2023-01-01
name = "Dining"
type = "Expenses"
currency = "USD"

[[transaction]]
date = 2023-05-02
account = "Savings"
payee = "ACME"
amount = 100
offset_account = "Salary"

[[transaction]]
date = 2023-03-15
account = "Dining"
payee = "RESTAURANT X"
amount = 20
offset_account = "Savings"

[[transaction]]
date = 2023-05-01
account = "Dining"
payee = "RESTAURANT Y"
amount = 35
offset_account = "Savings"

[[transaction]]
date = 2023-03-15
account = "Savings"
payee = "ACME"
amount = 100
offset_account = "Salary"
"#;

#[test]
fn journal_is_in_date_order() {
    let ledger = Ledger::new(MONTHS).unwrap();
    assert_eq!(ledger.journal(None, None, None, None, None).unwrap(), vec![1, 3, 2, 0]);
    assert_eq!(ledger.journal(Some("2023-04-01"), None, None, None, None).unwrap(), vec![2, 0]);
    assert_eq!(ledger.journal(None, Some("2023-03-15"), None, None, None).unwrap(), vec![1, 3]);
    assert_eq!(ledger.journal(None, None, None, Some("Dining"), None).unwrap(), vec![1, 2]);
    assert_eq!(ledger.journal(None, None, Some("Income"), None, None).unwrap(), vec![3, 0]);
    assert_eq!(ledger.journal(None, None, None, None, Some("ACME")).unwrap(), vec![3, 0]);
    assert_eq!(ledger.journal(Some("2023-04-01"), None, None, None, Some("ACME")).unwrap(), vec![0]);
    assert!(matches!(
        ledger.journal(Some("2023-13-01"), None, None, None, None),
        Err(LedgerError::InvalidDate(_))
    ));
}

#[test]
fn filters_select_accounts_and_transactions() {
    let ledger = Ledger::new(MONTHS).unwrap();
    assert_eq!(ledger._query_by_account_name("Dining").len(), 1);
    assert_eq!(ledger._query_by_account_type("Income")[0].name, "Salary");
    assert_eq!(ledger._query_by_account_type("Nonsense").len(), 0);
    assert_eq!(ledger._query_by_account_currency("USD").len(), 3);
    assert_eq!(ledger._query_by_account_currency("EUR").len(), 0);
    assert_eq!(ledger._query_by_transaction_payee("ACME").len(), 2);
    let may = ledger._query_by_transaction_date(Some(day(2023, 5, 1)), Some(day(2023, 5, 31)));
    assert_eq!(may.len(), 2);
    assert_eq!(ledger._query_by_transaction_date(None, None).len(), 4);
}

#[test]
fn balances_by_month_most_recent_first() {
    let ledger = Ledger::new(MONTHS).unwrap();
    let rep = ledger.balance_report(None, None, None, None, Some("M")).unwrap();
    assert_eq!(rep.periods, vec![(2023, 5), (2023, 3)]);
    let may = &rep.groups.iter().find(|g| g.0 == (2023, 5)).unwrap().1;
    assert_eq!(may.get("Savings"), Some(70 * SCALE as i128));
    assert_eq!(may.get("Dining"), Some(35 * SCALE as i128));
    assert_eq!(may.get("Salary"), Some(-100 * SCALE as i128));
    assert_eq!(rep.rows, vec![0, 1, 2]);
    assert_eq!(rep.types, vec![AccountType::Income, AccountType::Assets, AccountType::Expenses]);

    let rep = ledger
        .balance_report(None, None, Some(&vec!["Expenses".to_string(), "Income".to_string()]), None, Some("Q"))
        .unwrap();
    assert_eq!(rep.periods, vec![(2023, 2), (2023, 1)]);
    assert_eq!(rep.rows, vec![0, 2]);
    assert_eq!(rep.types, vec![AccountType::Income, AccountType::Expenses]);
}

#[test]
fn zero_balances_are_dropped_per_period() {
    let doc = r#"
[[account]]
open = 2023-01-01
name = "A"
type = "Assets"
currency = "USD"

[[account]]
open = 2023-01-01
name = "B"
type = "Assets"
currency = "USD"

[[account]]
open = 2023-01-01
name = "C"
type = "Assets"
currency = "USD"

[[transaction]]
date = 2023-01-10
account = "A"
amount = 5
offset_account = "B"
"#;
    let ledger = Ledger::new(doc).unwrap();
    let rep = ledger.balance_report(None, None, None, None, None).unwrap();
    assert_eq!(rep.periods, vec![(0, 0)]);
    let b = &rep.groups[0].1;
    assert_eq!(b.get("C"), None);
    assert_eq!(b.get("A"), Some(5 * SCALE as i128));
    assert_eq!(rep.rows, vec![0, 1]);
}

#[test]
fn missing_type_is_fatal_and_unknown_type_is_lenient() {
    let missing = Record {
        fields: vec![
            text("name", "Cash"),
            (String::from("open"), Field::Date(String::from("2023-01-01"))),
            text("currency", "USD"),
        ],
    };
    let e = load_account(&missing).unwrap_err();
    assert_eq!(e.kind, LoadErrorKind::MissingField);
    assert_eq!(e.record, RecordKind::Account);
    assert_eq!(e.field, "type");

    let odd = Record {
        fields: vec![
            text("name", "Cash"),
            (String::from("open"), Field::Date(String::from("2023-01-01"))),
            text("currency", "USD"),
            text("type", "Savings"),
        ],
    };
    let a = load_account(&odd).unwrap();
    assert_eq!(a.account_type, AccountType::Unknown);
    assert_eq!(a.open, day(2023, 1, 1));
    assert_eq!(a.opening_balance, None);
}

#[test]
fn omitted_offset_amount_is_the_negated_amount() {
    let rec = Record {
        fields: vec![
            text("account", "A"),
            text("date", "2023-02-03"),
            (String::from("amount"), Field::Decimal(String::from("-12.345"))),
            text("offset_account", "B"),
        ],
    };
    let t = load_transaction(&rec).unwrap();
    assert_eq!(t.amount, -12_345_000);
    assert_eq!(t.offset_amount, 12_345_000);
    assert_eq!(t.quantity, SCALE);
    assert_eq!(t.payee, None);
}

#[test]
fn record_errors_name_the_field() {
    let no_amount = Record { fields: vec![text("account", "A"), text("date", "2023-02-03"), text("offset_account", "B")] };
    let e = load_transaction(&no_amount).unwrap_err();
    assert_eq!((e.kind, e.field.as_str()), (LoadErrorKind::MissingField, "amount"));

    let text_amount = Record {
        fields: vec![text("account", "A"), text("date", "2023-02-03"), text("amount", "ten"), text("offset_account", "B")],
    };
    let e = load_transaction(&text_amount).unwrap_err();
    assert_eq!((e.kind, e.field.as_str()), (LoadErrorKind::TypeMismatch, "amount"));

    let bad_date = Record {
        fields: vec![text("account", "A"), text("date", "2023-02-30"), (String::from("amount"), Field::Integer(1)), text("offset_account", "B")],
    };
    let e = load_transaction(&bad_date).unwrap_err();
    assert_eq!((e.kind, e.field.as_str()), (LoadErrorKind::InvalidDate, "date"));
}

#[test]
fn documents_load_or_fail() {
    let doc = r#"
[[account]]
open = 2023-09-30
name = "Odd"
type = "Whatever"
currency = "USD"
"#;
    let ledger = Ledger::new(doc).unwrap();
    assert_eq!(ledger.accounts[0].account_type, AccountType::Unknown);
    assert_eq!(ledger.accounts[0].open, day(2023, 9, 30));

    let no_type = "[[account]]\nopen = 2023-09-30\nname = \"X\"\ncurrency = \"USD\"\n";
    match Ledger::new(no_type) {
        Err(DocumentError::Record(e)) => {
            assert_eq!(e.kind, LoadErrorKind::MissingField);
            assert_eq!(e.record, RecordKind::Account);
            assert_eq!(e.field, "type");
        }
        _ => panic!("expected a missing field"),
    }
    assert!(matches!(Ledger::new("[[account]\nname ="), Err(DocumentError::Syntax(_))));
    let empty = Ledger::new("").unwrap();
    assert!(empty.accounts.is_empty() && empty.transactions.is_empty() && empty.prices.is_empty());
}

#[test]
fn imported_rows_take_the_magnitude() {
    let t = import_row("28/09/2023", None, "Taxes".to_string(), Some("GOV".to_string()), "-42.10", Some("Card".to_string())).unwrap();
    assert_eq!(t.date, day(2023, 9, 28));
    assert_eq!(t.amount, 42_100_000);
    assert_eq!(t.offset_amount, -42_100_000);
    let t = import_row("2023-09-23", Some("%Y-%m-%d"), "Dining".to_string(), None, "15", None).unwrap();
    assert_eq!(t.date, day(2023, 9, 23));
    assert_eq!(t.amount, 15 * SCALE);
    assert!(matches!(import_row("2023-09-23", None, "A".to_string(), None, "1", None), Err(ImportError::InvalidDate(_))));
    assert!(matches!(import_row("23/09/2023", None, "A".to_string(), None, "x", None), Err(ImportError::InvalidAmount(_))));
}

#[test]
fn widest_account_name() {
    let ledger = Ledger::new(MONTHS).unwrap();
    assert_eq!(ledger.name_width(), 7);
    assert_eq!(Ledger::new("").unwrap().name_width(), 0);
}

#[test]
fn document_errors_name_the_record_kind() {
    let doc = "[[transaction]]\naccount = \"A\"\ndate = 2023-01-01\noffset_account = \"B\"\n";
    match Ledger::new(doc) {
        Err(DocumentError::Record(e)) => {
            assert_eq!((e.kind, e.record, e.field.as_str()), (LoadErrorKind::MissingField, RecordKind::Transaction, "amount"));
        }
        _ => panic!("expected a missing amount"),
    }
    let doc = "[[price]]\ndate = 2023-01-01\ncommodity = \"BTC\"\nprice = \"high\"\ncurrency = \"USD\"\n";
    match Ledger::new(doc) {
        Err(DocumentError::Record(e)) => {
            assert_eq!((e.kind, e.record, e.field.as_str()), (LoadErrorKind::TypeMismatch, RecordKind::Price, "price"));
        }
        _ => panic!("expected a price of the wrong kind"),
    }
    let doc = "[[account]]\nname = \"Wallet\"\ntype = \"Assets\"\ncurrency = \"USD\"\n";
    match Ledger::new(doc) {
        Err(DocumentError::Record(e)) => {
            assert_eq!((e.kind, e.record, e.field.as_str()), (LoadErrorKind::MissingField, RecordKind::Account, "open"));
        }
        _ => panic!("expected a missing opening date"),
    }
}
