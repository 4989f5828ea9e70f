use abacus::accounts::{Account, AccountType};
use abacus::amount::SCALE;
use abacus::date::{quarter, Date};
use abacus::price::Price;
use abacus::text::strip_quotes_of;
use abacus::transaction::Transaction;
use chrono::Datelike;

fn day(y: i32, m: u32, d: u32) -> Date {
    Date::new(y, m, d).unwrap()
}

#[test]
fn test_account_default() {
    let account = Account::default();
    let today = chrono::Local::now().date_naive();
    assert_eq!(account.name, "new_account");
    assert_eq!(account.currency, "USD");
    assert_eq!(account.account_type, AccountType::Assets);
    assert_eq!(account.open, day(today.year(), today.month(), today.day()));
    assert_eq!(account.opening_balance, None);
}

#[test]
fn test_account_new() {
    let name = "Test Account".to_string();
    let open = day(2023, 10, 13);
    let currency = "EUR".to_string();
    let account_type = AccountType::Income;
    let opening_balance = Some(1000 * SCALE);

    let account = Account::new(
        name.clone(),
        open,
        currency.clone(),
        account_type.clone(),
        opening_balance,
    );

    assert_eq!(account.name, name);
    assert_eq!(account.currency, currency);
    assert_eq!(account.account_type, account_type);
    assert_eq!(account.open, open);
    assert_eq!(account.opening_balance, opening_balance);
}

#[test]
fn test_account_to_enum() {
    assert_eq!(AccountType::from_str("Assets").unwrap(), AccountType::Assets);
    assert_eq!(AccountType::from_str("Income").unwrap(), AccountType::Income);
    assert_eq!(AccountType::from_str("Liabilities").unwrap(), AccountType::Liabilities);
    assert_eq!(AccountType::from_str("Expenses").unwrap(), AccountType::Expenses);
    assert_eq!(AccountType::from_str("Equity").unwrap(), AccountType::Equity);
    assert_eq!(AccountType::from_str("Stocks").unwrap(), AccountType::Stocks);
    assert_eq!(AccountType::from_str("MutualFunds").unwrap(), AccountType::MutualFunds);
    assert_eq!(AccountType::from_str("Holdings").unwrap(), AccountType::Holdings);
    assert_eq!(AccountType::from_str("Cash").unwrap(), AccountType::Cash);
    assert_eq!(AccountType::from_str("Unknown").unwrap(), AccountType::Unknown);
}

#[test]
fn unrecognized_type_name_is_unknown() {
    assert_eq!(AccountType::from_str("Savings").unwrap(), AccountType::Unknown);
    assert_eq!(AccountType::from_str("").unwrap(), AccountType::Unknown);
    assert_eq!(AccountType::from_str("assets").unwrap(), AccountType::Unknown);
}

#[test]
fn account_type_names() {
    assert_eq!(AccountType::MutualFunds.name(), "MutualFunds");
    assert_eq!(AccountType::Unknown.name(), "Unknown");
}

#[test]
fn test_price_new() {
    let date = day(2023, 10, 13);
    let commodity = "Gold".to_string();
    let price = 1500 * SCALE;
    let currency = "USD".to_string();

    let price_data = Price::new(date, commodity.clone(), price, currency.clone());

    assert_eq!(price_data.date, date);
    assert_eq!(price_data.commodity, commodity);
    assert_eq!(price_data.price, price);
    assert_eq!(price_data.currency, currency);
}

#[test]
fn test_price_equality() {
    let date1 = day(2023, 10, 13);
    let commodity1 = "Gold".to_string();
    let price1 = 1500 * SCALE;
    let currency1 = "USD".to_string();

    let date2 = day(2023, 10, 14);
    let commodity2 = "Gold".to_string();
    let price2 = 1550 * SCALE;
    let currency2 = "USD".to_string();

    let price_data1 = Price::new(date1, commodity1.clone(), price1, currency1.clone());
    let price_data2 = Price::new(date2, commodity2.clone(), price2, currency2.clone());

    assert_ne!(price_data1, price_data2);

    let price_data3 = Price::new(date1, commodity1, price1, currency1);
    assert_eq!(price_data1, price_data3);
}

#[test]
fn test_price_clone() {
    let date = day(2023, 10, 13);
    let commodity = "Gold".to_string();
    let price = 1500 * SCALE;
    let currency = "USD".to_string();

    let price_data = Price::new(date, commodity.clone(), price, currency.clone());
    let cloned_price_data = price_data.clone();

    assert_eq!(price_data, cloned_price_data);
}

#[test]
fn test_transaction_new() {
    let date = day(2023, 10, 13);
    let account = "Account1".to_string();
    let payee = Some("Payee1".to_string());
    let quantity = 100 * SCALE;
    let amount = 500 * SCALE;
    let offset_account = "Account2".to_string();
    let offset_amount = 500 * SCALE;
    let note = Some("Note1".to_string());

    let transaction = Transaction::new(
        date,
        account.clone(),
        payee.clone(),
        quantity,
        amount,
        offset_account.clone(),
        offset_amount,
        note.clone(),
    );

    assert_eq!(transaction.date, date);
    assert_eq!(transaction.account, account);
    assert_eq!(transaction.payee, payee);
    assert_eq!(transaction.quantity, quantity);
    assert_eq!(transaction.amount, amount);
    assert_eq!(transaction.offset_account, offset_account);
    assert_eq!(transaction.offset_amount, offset_amount);
    assert_eq!(transaction.note, note);
}

#[test]
fn constructors_strip_quotes() {
    let a = Account::new("\"Savings\"".to_string(), day(2023, 1, 1), "\"USD\"".to_string(), AccountType::Assets, None);
    assert_eq!(a.name, "Savings");
    assert_eq!(a.currency, "USD");
    let t = Transaction::new(day(2023, 1, 1), "\"A\"".to_string(), None, SCALE, SCALE, "B\"\"".to_string(), -SCALE, None);
    assert_eq!(t.account, "A");
    assert_eq!(t.offset_account, "B");
    let p = Price::new(day(2023, 1, 1), "\"BTC\"".to_string(), SCALE, "US\"D".to_string());
    assert_eq!(p.commodity, "BTC");
    assert_eq!(p.currency, "USD");
}

#[test]
fn stripping_quotes_twice_is_stripping_once() {
    for s in ["\"a\"b\"", "plain", "\"\"", "", "x\"\"\"y"] {
        let once = strip_quotes_of(s);
        let twice = strip_quotes_of(&once);
        assert_eq!(once, twice);
        assert!(!once.contains('"'));
    }
    assert_eq!(strip_quotes_of("\"Savings Account\""), "Savings Account");
}

#[test]
fn calendar_dates() {
    assert!(Date::new(2023, 2, 29).is_none());
    assert!(Date::new(2024, 2, 29).is_some());
    assert!(Date::new(1900, 2, 29).is_none());
    assert!(Date::new(2000, 2, 29).is_some());
    assert!(Date::new(2023, 4, 31).is_none());
    assert!(Date::new(2023, 13, 1).is_none());
    assert!(Date::new(2023, 1, 0).is_none());
    assert!(day(2023, 5, 15).le(&day(2023, 5, 15)));
    assert!(day(2022, 12, 31).lt(&day(2023, 1, 1)));
    assert!(!day(2023, 6, 1).le(&day(2023, 5, 31)));
}

#[test]
fn quarters_of_months() {
    assert_eq!(quarter(1), 1);
    assert_eq!(quarter(3), 1);
    assert_eq!(quarter(4), 2);
    assert_eq!(quarter(9), 3);
    assert_eq!(quarter(10), 4);
    assert_eq!(quarter(12), 4);
}
