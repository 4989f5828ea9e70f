//! The ledger: declared accounts, transactions and prices, with validation,
//! filters, balance aggregation, period grouping and reports.

use crate::accounts::{account_type_of, Account, AccountType};
use crate::date::Date;
use crate::price::Price;
use crate::text::text_is;
use crate::transaction::Transaction;
use vstd::prelude::*;
use vstd::string::*;

verus! {

/// Accounts, transactions and prices, as declared.
pub struct Ledger {
    pub accounts: Vec<Account>,
    pub transactions: Vec<Transaction>,
    pub prices: Vec<Price>,
}

/// `accounts[i]` is the first account named `name`.
pub open spec fn first_named(accounts: Seq<Account>, name: Seq<char>, i: int) -> bool {
    0 <= i < accounts.len() && accounts[i].name@ == name && forall|j: int|
        0 <= j < i ==> accounts[j].name@ != name
}

/// The first account named `name`.
pub open spec fn find_account(accounts: Seq<Account>, name: Seq<char>) -> Option<Account> {
    if exists|i: int| first_named(accounts, name, i) {
        Some(accounts[choose|i: int| first_named(accounts, name, i)])
    } else {
        None
    }
}

#[derive(Debug, Clone, Copy, PartialEq, Eq, Structural)]
pub enum Problem {
    UnknownAccount,
    UnbalancedTransaction,
}

/// What is wrong with a transaction: its account is not declared; or its
/// legs do not net to zero while both accounts are declared in one currency.
/// Legs in different currencies, or with an undeclared offset account, need
/// not net to zero.
pub open spec fn problem(accounts: Seq<Account>, t: Transaction) -> Option<Problem> {
    let a = find_account(accounts, t.account@);
    let o = find_account(accounts, t.offset_account@);
    if a is None {
        Some(Problem::UnknownAccount)
    } else if t.amount + t.offset_amount != 0 && o is Some && a->Some_0.currency@
        == o->Some_0.currency@ {
        Some(Problem::UnbalancedTransaction)
    } else {
        None
    }
}

/// `txs[i]` is the first transaction with a problem.
pub open spec fn first_problem(accounts: Seq<Account>, txs: Seq<Transaction>, i: int) -> bool {
    0 <= i < txs.len() && problem(accounts, txs[i]) is Some && forall|j: int|
        0 <= j < i ==> problem(accounts, #[trigger] txs[j]) is None
}

/// Accounts named `name`.
pub open spec fn named(name: Seq<char>) -> spec_fn(Account) -> bool {
    |a: Account| a.name@ == name
}

/// Accounts of type `t`.
pub open spec fn of_type(t: AccountType) -> spec_fn(Account) -> bool {
    |a: Account| a.account_type == t
}

/// Accounts kept in `currency`.
pub open spec fn in_currency(currency: Seq<char>) -> spec_fn(Account) -> bool {
    |a: Account| a.currency@ == currency
}

/// Transactions whose payee is `payee`; one without a payee has none.
pub open spec fn paid_to(payee: Seq<char>) -> spec_fn(Transaction) -> bool {
    |t: Transaction| t.payee is Some && t.payee->Some_0@ == payee
}

/// The date that stands for an open end of a date range.
pub open spec fn far_future() -> Date {
    Date { year: 2999, month: 1, day: 1 }
}

/// `d` lies in the inclusive range `[from, to]`; no `from` is no lower
/// bound, no `to` is the far-future date.
pub open spec fn in_range(d: Date, from: Option<Date>, to: Option<Date>) -> bool {
    &&& (from is None || from->Some_0.spec_le(&d))
    &&& match to {
        Some(t) => d.spec_le(&t),
        None => d.spec_le(&far_future()),
    }
}

/// Transactions dated within `[from, to]`.
pub open spec fn dated_within(from: Option<Date>, to: Option<Date>) -> spec_fn(Transaction) -> bool {
    |t: Transaction| in_range(t.date, from, to)
}

/// The longest name among the first `n` accounts, in characters.
pub open spec fn widest_name(accounts: Seq<Account>, n: int) -> int
    decreases n,
{
    if n <= 0 {
        0
    } else {
        let w = widest_name(accounts, n - 1);
        let l = accounts[n - 1].name@.len() as int;
        if l > w {
            l
        } else {
            w
        }
    }
}

/// Filtering one more element of `s`.
pub proof fn lemma_filter_step<T>(s: Seq<T>, i: int, p: spec_fn(T) -> bool)
    requires
        0 <= i < s.len(),
    ensures
        s.take(i + 1).filter(p) == (if p(s[i]) {
            s.take(i).filter(p).push(s[i])
        } else {
            s.take(i).filter(p)
        }),
{
    reveal(Seq::filter);
    assert(s.take(i + 1).drop_last() =~= s.take(i));
    assert(s.take(i + 1).last() == s[i]);
}

/// `e` reports the first transaction of `l` with a problem: its account
/// name where the account is undeclared, its position where it does not
/// balance.
pub open spec fn reports_first_problem(l: Ledger, e: ValidationError) -> bool {
    match e {
        ValidationError::UnknownAccount(name) => exists|i: int|
            first_problem(l.accounts@, l.transactions@, i) && problem(l.accounts@, l.transactions@[i])
                == Some(Problem::UnknownAccount) && name@ == l.transactions@[i].account@,
        ValidationError::UnbalancedTransaction(i) => first_problem(
            l.accounts@,
            l.transactions@,
            i as int,
        ) && problem(l.accounts@, l.transactions@[i as int]) == Some(
            Problem::UnbalancedTransaction,
        ),
    }
}

/// The values that a sequence of references points to.
pub open spec fn deref_all<T>(s: Seq<&T>) -> Seq<T> {
    s.map_values(|x: &T| *x)
}

/// Why a ledger is invalid.
#[derive(Debug, Clone)]
pub enum ValidationError {
    /// A transaction names this undeclared account.
    UnknownAccount(String),
    /// The transaction at this position does not balance.
    UnbalancedTransaction(usize),
}

/// Whether `d` lies in `[from, to]`.
pub fn within(d: &Date, from: &Option<Date>, to: &Option<Date>) -> (r: bool)
    ensures
        r == in_range(*d, *from, *to),
{
    let after = match from {
        Some(f) => f.le(d),
        None => true,
    };
    let before = match to {
        Some(t) => d.le(t),
        None => d.le(&Date { year: 2999, month: 1, day: 1 }),
    };
    after && before
}

impl Ledger {
    /// A ledger of the given entities; nothing is checked here.
    pub fn from_parts(
        accounts: Vec<Account>,
        transactions: Vec<Transaction>,
        prices: Vec<Price>,
    ) -> (r: Ledger)
        ensures
            r.accounts@ == accounts@,
            r.transactions@ == transactions@,
            r.prices@ == prices@,
    {
        Ledger { accounts, transactions, prices }
    }

    /// Position of the first account named `name`.
    fn find_account(&self, name: &str) -> (r: Option<usize>)
        ensures
            match r {
                Some(i) => first_named(self.accounts@, name@, i as int) && find_account(
                    self.accounts@,
                    name@,
                ) == Some(self.accounts@[i as int]),
                None => find_account(self.accounts@, name@) is None,
            },
    {
        let mut i: usize = 0;
        while i < self.accounts.len()
            invariant
                i <= self.accounts@.len(),
                forall|j: int| 0 <= j < i ==> self.accounts@[j].name@ != name@,
            decreases self.accounts@.len() - i,
        {
            if text_is(self.accounts[i].name.as_str(), name) {
                proof {
                    assert(first_named(self.accounts@, name@, i as int));
                    assert forall|k: int| #[trigger]
                        first_named(self.accounts@, name@, k) implies k == i by {
                        if k < i {
                        } else if k > i {
                        }
                    }
                }
                return Some(i);
            }
            i = i + 1;
        }
        None
    }

    /// What is wrong with transaction `t`.
    fn check_transaction(&self, t: &Transaction) -> (r: Option<Problem>)
        ensures
            r == problem(self.accounts@, *t),
    {
        let a = self.find_account(t.account.as_str());
        match a {
            None => Some(Problem::UnknownAccount),
            Some(ai) => {
                if t.amount as i128 + t.offset_amount as i128 != 0 {
                    match self.find_account(t.offset_account.as_str()) {
                        Some(oi) => {
                            if self.accounts[ai].currency == self.accounts[oi].currency {
                                Some(Problem::UnbalancedTransaction)
                            } else {
                                None
                            }
                        },
                        None => None,
                    }
                } else {
                    None
                }
            },
        }
    }

    /// Checks every transaction: its account must be declared, and its legs
    /// must net to zero where both accounts share a currency. Reports the
    /// first transaction that fails.
    pub fn validate_transactions(&self) -> (r: Result<(), ValidationError>)
        ensures
            r is Ok <==> forall|i: int|
                0 <= i < self.transactions@.len() ==> problem(
                    self.accounts@,
                    #[trigger] self.transactions@[i],
                ) is None,
            match r {
                Ok(_) => true,
                Err(e) => reports_first_problem(*self, e),
            },
    {
        let mut i: usize = 0;
        while i < self.transactions.len()
            invariant
                i <= self.transactions@.len(),
                forall|j: int|
                    0 <= j < i ==> problem(self.accounts@, #[trigger] self.transactions@[j])
                        is None,
            decreases self.transactions@.len() - i,
        {
            match self.check_transaction(&self.transactions[i]) {
                Some(Problem::UnknownAccount) => {
                    proof {
                        assert(first_problem(self.accounts@, self.transactions@, i as int));
                    }
                    return Err(ValidationError::UnknownAccount(self.transactions[i].account.clone()));
                },
                Some(Problem::UnbalancedTransaction) => {
                    proof {
                        assert(first_problem(self.accounts@, self.transactions@, i as int));
                    }
                    return Err(ValidationError::UnbalancedTransaction(i));
                },
                None => {},
            }
            i = i + 1;
        }
        Ok(())
    }

    /// Accounts named `account_name`.
    pub fn _query_by_account_name(&self, account_name: &str) -> (r: Vec<&Account>)
        ensures
            deref_all(r@) == self.accounts@.filter(named(account_name@)),
    {
        let mut r: Vec<&Account> = Vec::new();
        let mut i: usize = 0;
        while i < self.accounts.len()
            invariant
                i <= self.accounts@.len(),
                deref_all(r@) == self.accounts@.take(i as int).filter(named(account_name@)),
            decreases self.accounts@.len() - i,
        {
            proof {
                lemma_filter_step(self.accounts@, i as int, named(account_name@));
            }
            let ghost old_r = r;
            if text_is(self.accounts[i].name.as_str(), account_name) {
                r.push(&self.accounts[i]);
                proof {
                    assert(deref_all(r@) =~= deref_all(old_r@).push(self.accounts@[i as int]));
                }
            }
            i = i + 1;
        }
        proof {
            assert(self.accounts@.take(i as int) =~= self.accounts@);
        }
        r
    }

    /// Accounts of the type that `account_type` names; a name not in the
    /// list selects the `Unknown` accounts.
    pub fn _query_by_account_type(&self, account_type: &str) -> (r: Vec<&Account>)
        ensures
            deref_all(r@) == self.accounts@.filter(of_type(account_type_of(account_type@))),
    {
        let t = match AccountType::from_str(account_type) {
            Ok(t) => t,
            Err(_) => AccountType::Unknown,
        };
        let mut r: Vec<&Account> = Vec::new();
        let mut i: usize = 0;
        while i < self.accounts.len()
            invariant
                i <= self.accounts@.len(),
                t == account_type_of(account_type@),
                deref_all(r@) == self.accounts@.take(i as int).filter(of_type(t)),
            decreases self.accounts@.len() - i,
        {
            proof {
                lemma_filter_step(self.accounts@, i as int, of_type(t));
            }
            let ghost old_r = r;
            if self.accounts[i].account_type == t {
                r.push(&self.accounts[i]);
                proof {
                    assert(deref_all(r@) =~= deref_all(old_r@).push(self.accounts@[i as int]));
                }
            }
            i = i + 1;
        }
        proof {
            assert(self.accounts@.take(i as int) =~= self.accounts@);
        }
        r
    }

    /// Accounts kept in `account_currency`.
    pub fn _query_by_account_currency(&self, account_currency: &str) -> (r: Vec<&Account>)
        ensures
            deref_all(r@) == self.accounts@.filter(in_currency(account_currency@)),
    {
        let mut r: Vec<&Account> = Vec::new();
        let mut i: usize = 0;
        while i < self.accounts.len()
            invariant
                i <= self.accounts@.len(),
                deref_all(r@) == self.accounts@.take(i as int).filter(
                    in_currency(account_currency@),
                ),
            decreases self.accounts@.len() - i,
        {
            proof {
                lemma_filter_step(self.accounts@, i as int, in_currency(account_currency@));
            }
            let ghost old_r = r;
            if text_is(self.accounts[i].currency.as_str(), account_currency) {
                r.push(&self.accounts[i]);
                proof {
                    assert(deref_all(r@) =~= deref_all(old_r@).push(self.accounts@[i as int]));
                }
            }
            i = i + 1;
        }
        proof {
            assert(self.accounts@.take(i as int) =~= self.accounts@);
        }
        r
    }

    /// Transactions whose payee is `payee`.
    pub fn _query_by_transaction_payee(&self, payee: &str) -> (r: Vec<&Transaction>)
        ensures
            deref_all(r@) == self.transactions@.filter(paid_to(payee@)),
    {
        let mut r: Vec<&Transaction> = Vec::new();
        let mut i: usize = 0;
        while i < self.transactions.len()
            invariant
                i <= self.transactions@.len(),
                deref_all(r@) == self.transactions@.take(i as int).filter(paid_to(payee@)),
            decreases self.transactions@.len() - i,
        {
            proof {
                lemma_filter_step(self.transactions@, i as int, paid_to(payee@));
            }
            let ghost old_r = r;
            let keep = match &self.transactions[i].payee {
                Some(p) => text_is(p.as_str(), payee),
                None => false,
            };
            if keep {
                r.push(&self.transactions[i]);
                proof {
                    assert(deref_all(r@) =~= deref_all(old_r@).push(self.transactions@[i as int]));
                }
            }
            i = i + 1;
        }
        proof {
            assert(self.transactions@.take(i as int) =~= self.transactions@);
        }
        r
    }

    /// Transactions dated within the inclusive range `[from, to]`.
    pub fn _query_by_transaction_date(&self, from: Option<Date>, to: Option<Date>) -> (r: Vec<
        &Transaction,
    >)
        ensures
            deref_all(r@) == self.transactions@.filter(dated_within(from, to)),
    {
        let mut r: Vec<&Transaction> = Vec::new();
        let mut i: usize = 0;
        while i < self.transactions.len()
            invariant
                i <= self.transactions@.len(),
                deref_all(r@) == self.transactions@.take(i as int).filter(dated_within(from, to)),
            decreases self.transactions@.len() - i,
        {
            proof {
                lemma_filter_step(self.transactions@, i as int, dated_within(from, to));
            }
            let ghost old_r = r;
            if within(&self.transactions[i].date, &from, &to) {
                r.push(&self.transactions[i]);
                proof {
                    assert(deref_all(r@) =~= deref_all(old_r@).push(self.transactions@[i as int]));
                }
            }
            i = i + 1;
        }
        proof {
            assert(self.transactions@.take(i as int) =~= self.transactions@);
        }
        r
    }

    /// The length, in characters, of the longest account name; zero
    /// without accounts. Account listings align on it.
    pub fn name_width(&self) -> (r: usize)
        ensures
            r == widest_name(self.accounts@, self.accounts@.len() as int),
    {
        let mut w: usize = 0;
        let mut i: usize = 0;
        while i < self.accounts.len()
            invariant
                i <= self.accounts@.len(),
                w == widest_name(self.accounts@, i as int),
            decreases self.accounts@.len() - i,
        {
            let l = self.accounts[i].name.as_str().unicode_len();
            if l > w {
                w = l;
            }
            i = i + 1;
        }
        w
    }
}

} // verus!
