//! Reports: the journal of postings and the balance sheet by period.

use crate::accounts::{account_type_of, Account, AccountType};
use crate::balances::{balances_fit, balances_of, nonzero, text_option, Balances};
use crate::ledger::lemma_filter_step;
use crate::periods::{bucket, lists_periods, period_at, period_keys};
use itertools::Itertools;
use crate::date::{iso_date_of, parse_date, Date};
use crate::ledger::{reports_first_problem, find_account, in_range, paid_to, problem, Ledger, ValidationError};
use crate::text::text_is;
use crate::transaction::Transaction;
use vstd::prelude::*;

verus! {

/// Why a report cannot be produced.
#[derive(Debug, Clone)]
pub enum LedgerError {
    /// A date bound that is not `YYYY-MM-DD`.
    InvalidDate(String),
    /// The ledger does not validate.
    Invalid(ValidationError),
    /// The balances do not fit in `i128`.
    Overflow,
}

/// Every transaction of the ledger passes validation.
pub open spec fn ledger_valid(l: Ledger) -> bool {
    forall|i: int| 0 <= i < l.transactions@.len() ==> problem(l.accounts@, #[trigger] l.transactions@[i]) is None
}

/// Both accounts of `t` are declared, in one currency.
pub open spec fn same_currency_legs(accounts: Seq<Account>, t: Transaction) -> bool {
    &&& find_account(accounts, t.account@) is Some
    &&& find_account(accounts, t.offset_account@) is Some
    &&& find_account(accounts, t.account@)->Some_0.currency@ == find_account(
        accounts,
        t.offset_account@,
    )->Some_0.currency@
}

/// A transaction whose two accounts are declared in one currency passes
/// validation exactly when `amount + offset_amount` is zero.
pub proof fn lemma_same_currency_balances(accounts: Seq<Account>, t: Transaction)
    requires
        same_currency_legs(accounts, t),
    ensures
        problem(accounts, t) is None <==> t.amount + t.offset_amount == 0,
{
}

/// In a ledger whose transactions all have their two accounts declared in
/// one currency, validation passes exactly when every transaction's
/// `amount + offset_amount` is zero.
pub proof fn lemma_same_currency_ledger(l: Ledger)
    requires
        forall|i: int| 0 <= i < l.transactions@.len() ==> same_currency_legs(l.accounts@, #[trigger] l.transactions@[i]),
    ensures
        ledger_valid(l) <==> forall|i: int|
            0 <= i < l.transactions@.len() ==> #[trigger] l.transactions@[i].amount + l.transactions@[i].offset_amount == 0,
{
    assert forall|i: int| 0 <= i < l.transactions@.len() implies (problem(l.accounts@, #[trigger] l.transactions@[i]) is None
        <==> l.transactions@[i].amount + l.transactions@[i].offset_amount == 0) by {
        lemma_same_currency_balances(l.accounts@, l.transactions@[i]);
    }
}

/// An absent bound, or one that reads as a date.
pub open spec fn bound_ok(s: Option<&str>) -> bool {
    match s {
        Some(t) => iso_date_of(t@) is Some,
        None => true,
    }
}

/// The date that a bound reads as.
pub open spec fn bound_of(s: Option<&str>) -> Option<Date> {
    match s {
        Some(t) => {
            let d = iso_date_of(t@)->Some_0;
            Some(Date { year: d.0 as i32, month: d.1 as u32, day: d.2 as u32 })
        },
        None => None,
    }
}

/// An account that the account filters keep: of the named type (a name not
/// in the list means `Unknown`) and of the given name, where given.
pub open spec fn account_kept(a: Account, account_type: Option<Seq<char>>, name: Option<Seq<char>>) -> bool {
    &&& (account_type is None || a.account_type == account_type_of(account_type->Some_0))
    &&& (name is None || a.name@ == name->Some_0)
}

/// One of the legs of `t` is an account that the filters keep.
pub open spec fn leg_kept(
    accounts: Seq<Account>,
    t: Transaction,
    account_type: Option<Seq<char>>,
    name: Option<Seq<char>>,
) -> bool {
    exists|i: int|
        0 <= i < accounts.len() && account_kept(#[trigger] accounts[i], account_type, name) && (
        accounts[i].name@ == t.account@ || accounts[i].name@ == t.offset_account@)
}

/// Transaction `t` belongs in the journal.
pub open spec fn in_journal(
    accounts: Seq<Account>,
    t: Transaction,
    from: Option<Date>,
    to: Option<Date>,
    account_type: Option<Seq<char>>,
    name: Option<Seq<char>>,
    payee: Option<Seq<char>>,
) -> bool {
    &&& in_range(t.date, from, to)
    &&& (payee is None || (paid_to(payee->Some_0))(t))
    &&& leg_kept(accounts, t, account_type, name)
}

/// Transaction `a` comes before `b`: earlier, or on the same day and
/// declared earlier.
pub open spec fn journal_before(txs: Seq<Transaction>, a: usize, b: usize) -> bool {
    txs[a as int].date.spec_lt(&txs[b as int].date) || (txs[a as int].date == txs[b as int].date
        && a < b)
}

/// `v` is in journal order.
pub open spec fn journal_sorted(txs: Seq<Transaction>, v: Seq<usize>) -> bool {
    forall|a: int, b: int| 0 <= a < b < v.len() ==> journal_before(txs, #[trigger] v[a], #[trigger] v[b])
}

/// Reads an optional date bound.
fn read_bound(s: Option<&str>) -> (r: Result<Option<Date>, LedgerError>)
    ensures
        match r {
            Ok(d) => bound_ok(s) && d == bound_of(s) && (d is Some ==> d->Some_0.wf()),
            Err(LedgerError::InvalidDate(t)) => !bound_ok(s) && t@ == s->Some_0@,
            Err(_) => false,
        },
{
    match s {
        Some(t) => match parse_date(t) {
            Some(d) => Ok(Some(d)),
            None => Err(LedgerError::InvalidDate(t.to_owned())),
        },
        None => Ok(None),
    }
}

/// Period `a` is not after period `b`.
pub open spec fn period_le(a: (i32, i32), b: (i32, i32)) -> bool {
    a.0 < b.0 || (a.0 == b.0 && a.1 <= b.1)
}

/// Relies on itertools' `sorted`: the same periods, in ascending order.
#[verifier::external_body]
fn sorted_periods(v: Vec<(i32, i32)>) -> (r: Vec<(i32, i32)>)
    ensures
        r@.to_multiset() == v@.to_multiset(),
        forall|a: int, b: int| 0 <= a < b < r@.len() ==> period_le(r@[a], r@[b]),
{
    v.into_iter().sorted().collect()
}

/// Periods, most recent first.
fn periods_descending(v: Vec<(i32, i32)>) -> (r: Vec<(i32, i32)>)
    ensures
        r@.len() == v@.len(),
        forall|x: (i32, i32)| r@.contains(x) <==> v@.contains(x),
        forall|a: int, b: int| 0 <= a < b < r@.len() ==> period_le(r@[b], r@[a]),
{
    let s = sorted_periods(v);
    proof {
        s@.to_multiset_ensures();
        v@.to_multiset_ensures();
    }
    let mut r: Vec<(i32, i32)> = Vec::new();
    let mut i: usize = s.len();
    while i > 0
        invariant
            i <= s@.len(),
            r@.len() == s@.len() - i,
            forall|k: int| 0 <= k < r@.len() ==> r@[k] == s@[s@.len() - 1 - k],
        decreases i,
    {
        i = i - 1;
        r.push(s[i]);
    }
    proof {
        assert forall|x: (i32, i32)| r@.contains(x) <==> s@.contains(x) by {
            if r@.contains(x) {
                let k = choose|k: int| 0 <= k < r@.len() && r@[k] == x;
                assert(s@[s@.len() - 1 - k] == x);
            }
            if s@.contains(x) {
                let k = choose|k: int| 0 <= k < s@.len() && s@[k] == x;
                assert(r@[s@.len() - 1 - k] == x);
            }
        }
        assert(v@.len() == v@.to_multiset().len());
        assert forall|x: (i32, i32)| s@.contains(x) <==> v@.contains(x) by {
            assert(s@.contains(x) <==> s@.to_multiset().count(x) > 0);
            assert(v@.contains(x) <==> v@.to_multiset().count(x) > 0);
        }
    }
    r
}

/// Positions `0..n`.
pub open spec fn positions(n: nat) -> Seq<usize> {
    Seq::new(n, |i: int| i as usize)
}

/// Positions of the transactions dated within `[from, to]`.
pub open spec fn dated(txs: Seq<Transaction>, from: Option<Date>, to: Option<Date>) -> Seq<usize> {
    positions(txs.len()).filter(|i: usize| in_range(txs[i as int].date, from, to))
}

/// An account whose type is one of `types`, where given.
pub open spec fn type_kept(a: Account, types: Option<Seq<String>>) -> bool {
    match types {
        Some(ts) => exists|j: int| 0 <= j < ts.len() && a.account_type == account_type_of(#[trigger] ts[j]@),
        None => true,
    }
}

/// `name` has a balance in some period.
pub open spec fn active(groups: Seq<((i32, i32), Balances)>, name: Seq<char>) -> bool {
    exists|a: int| 0 <= a < groups.len() && (#[trigger] groups[a]).1@.contains_key(name)
}

pub open spec fn types_option(o: Option<&Vec<String>>) -> Option<Seq<String>> {
    match o {
        Some(v) => Some(v@),
        None => None,
    }
}

/// A balance sheet: balances by period, the periods most recent first, the
/// kept accounts that have a balance, and the types of the kept accounts.
pub struct BalanceReport {
    /// Balances of each period, zero balances dropped.
    pub groups: Vec<((i32, i32), Balances)>,
    /// The periods, most recent first.
    pub periods: Vec<(i32, i32)>,
    /// Positions of the kept accounts with a balance in some period, in
    /// ledger order.
    pub rows: Vec<usize>,
    /// The types of the kept accounts, once each, in order of first
    /// appearance.
    pub types: Vec<AccountType>,
}

impl Ledger {
    /// Whether one of the legs of `t` is an account that the filters keep.
    fn leg_is_kept(&self, t: &Transaction, account_type: Option<&str>, name: Option<&str>) -> (r:
        bool)
        ensures
            r == leg_kept(self.accounts@, *t, text_option(account_type), text_option(name)),
    {
        let mut i: usize = 0;
        while i < self.accounts.len()
            invariant
                i <= self.accounts@.len(),
                forall|j: int|
                    0 <= j < i ==> !(account_kept(
                        #[trigger] self.accounts@[j],
                        text_option(account_type),
                        text_option(name),
                    ) && (self.accounts@[j].name@ == t.account@ || self.accounts@[j].name@
                        == t.offset_account@)),
            decreases self.accounts@.len() - i,
        {
            let a = &self.accounts[i];
            let type_ok = match account_type {
                Some(s) => match AccountType::from_str(s) {
                    Ok(k) => a.account_type == k,
                    Err(_) => false,
                },
                None => true,
            };
            let name_ok = match name {
                Some(n) => text_is(a.name.as_str(), n),
                None => true,
            };
            if type_ok && name_ok && (a.name == t.account || a.name == t.offset_account) {
                return true;
            }
            i = i + 1;
        }
        false
    }

    /// Inserts transaction `i` into `v` in journal order.
    fn insert_in_order(&self, v: &mut Vec<usize>, i: usize)
        requires
            i < self.transactions@.len(),
            journal_sorted(self.transactions@, old(v)@),
            forall|k: int| 0 <= k < old(v)@.len() ==> #[trigger] old(v)@[k] < i,
        ensures
            journal_sorted(self.transactions@, final(v)@),
            final(v)@.len() == old(v)@.len() + 1,
            forall|x: usize| #[trigger] final(v)@.contains(x) <==> (old(v)@.contains(x) || x == i),
            forall|k: int| 0 <= k < final(v)@.len() ==> #[trigger] final(v)@[k] <= i,
    {
        let ghost txs = self.transactions@;
        let ghost old_v = v@;
        let mut p: usize = v.len();
        while p > 0 && self.transactions[i].date.lt(&self.transactions[v[p - 1]].date)
            invariant
                p <= v@.len(),
                v@ == old_v,
                txs == self.transactions@,
                i < txs.len(),
                forall|k: int| 0 <= k < old_v.len() ==> #[trigger] old_v[k] < i,
                forall|k: int| p <= k < v@.len() ==> txs[i as int].date.spec_lt(&txs[#[trigger] v@[k] as int].date),
            decreases p,
        {
            p = p - 1;
        }
        proof {
            assert forall|k: int| 0 <= k < p implies journal_before(txs, #[trigger] v@[k], i) by {
                if k < p - 1 {
                    assert(journal_before(txs, v@[k], v@[p - 1]));
                }
            }
        }
        v.insert(p, i);
        proof {
            assert forall|a: int, b: int| 0 <= a < b < v@.len() implies journal_before(
                txs,
                #[trigger] v@[a],
                #[trigger] v@[b],
            ) by {
                if b < p {
                    assert(v@[a] == old_v[a] && v@[b] == old_v[b]);
                } else if b == p {
                    assert(v@[a] == old_v[a]);
                } else if a < p {
                    assert(v@[a] == old_v[a] && v@[b] == old_v[b - 1]);
                    assert(journal_before(txs, old_v[a], old_v[b - 1]));
                } else if a == p {
                    assert(v@[b] == old_v[b - 1]);
                } else {
                    assert(v@[a] == old_v[a - 1] && v@[b] == old_v[b - 1]);
                }
            }
            assert forall|x: usize| #[trigger] v@.contains(x) <==> (old_v.contains(x) || x == i) by {
                if v@.contains(x) {
                    let k = choose|k: int| 0 <= k < v@.len() && v@[k] == x;
                    if k < p {
                        assert(old_v[k] == x);
                    } else if k > p {
                        assert(old_v[k - 1] == x);
                    }
                }
                if old_v.contains(x) {
                    let k = choose|k: int| 0 <= k < old_v.len() && old_v[k] == x;
                    if k < p {
                        assert(v@[k] == x);
                    } else {
                        assert(v@[k + 1] == x);
                    }
                }
                if x == i {
                    assert(v@[p as int] == x);
                }
            }
            assert forall|k: int| 0 <= k < v@.len() implies #[trigger] v@[k] <= i by {
                if k < p {
                    assert(v@[k] == old_v[k]);
                } else if k > p {
                    assert(v@[k] == old_v[k - 1]);
                }
            }
        }
    }

    /// The journal: after validation, the transactions dated within `[from,
    /// to]`, paid to `payee` where given, one of whose legs is an account of
    /// the named type and name (where given); by date, and in ledger order
    /// within a day. The result lists positions in `self.transactions`.
    pub fn journal(
        &self,
        from: Option<&str>,
        to: Option<&str>,
        account_type: Option<&str>,
        name: Option<&str>,
        payee: Option<&str>,
    ) -> (r: Result<Vec<usize>, LedgerError>)
        ensures
            match r {
                Ok(v) => {
                    &&& ledger_valid(*self) && bound_ok(from) && bound_ok(to)
                    &&& journal_sorted(self.transactions@, v@)
                    &&& forall|k: int| 0 <= k < v@.len() ==> #[trigger] v@[k] < self.transactions@.len()
                    &&& forall|i: usize|
                        #![trigger v@.contains(i)]
                        i < self.transactions@.len() ==> (v@.contains(i) <==> in_journal(
                            self.accounts@,
                            self.transactions@[i as int],
                            bound_of(from),
                            bound_of(to),
                            text_option(account_type),
                            text_option(name),
                            text_option(payee),
                        ))
                },
                Err(LedgerError::Invalid(e)) => !ledger_valid(*self) && reports_first_problem(*self, e),
                Err(LedgerError::InvalidDate(_)) => ledger_valid(*self) && !(bound_ok(from)
                    && bound_ok(to)),
                Err(LedgerError::Overflow) => false,
            },
    {
        match self.validate_transactions() {
            Ok(_) => {},
            Err(e) => {
                return Err(LedgerError::Invalid(e));
            },
        }
        let lo = read_bound(from)?;
        let hi = read_bound(to)?;
        let mut v: Vec<usize> = Vec::new();
        let mut i: usize = 0;
        while i < self.transactions.len()
            invariant
                i <= self.transactions@.len(),
                lo == bound_of(from),
                hi == bound_of(to),
                journal_sorted(self.transactions@, v@),
                forall|k: int| 0 <= k < v@.len() ==> #[trigger] v@[k] < i,
                forall|x: usize|
                    #![trigger v@.contains(x)]
                    x < self.transactions@.len() ==> (v@.contains(x) <==> (x < i && in_journal(
                        self.accounts@,
                        self.transactions@[x as int],
                        lo,
                        hi,
                        text_option(account_type),
                        text_option(name),
                        text_option(payee),
                    ))),
            decreases self.transactions@.len() - i,
        {
            let t = &self.transactions[i];
            let payee_ok = match payee {
                Some(p) => match &t.payee {
                    Some(q) => text_is(q.as_str(), p),
                    None => false,
                },
                None => true,
            };
            if crate::ledger::within(&t.date, &lo, &hi) && payee_ok && self.leg_is_kept(
                t,
                account_type,
                name,
            ) {
                self.insert_in_order(&mut v, i);
            }
            proof {
                assert forall|k: int| 0 <= k < v@.len() implies #[trigger] v@[k] < i + 1 by {}
            }
            i = i + 1;
        }
        Ok(v)
    }

    /// Positions of the transactions dated within `[lo, hi]`.
    fn dated_positions(&self, lo: Option<Date>, hi: Option<Date>) -> (r: Vec<usize>)
        ensures
            r@ == dated(self.transactions@, lo, hi),
            forall|k: int| 0 <= k < r@.len() ==> #[trigger] r@[k] < self.transactions@.len(),
    {
        let ghost all = positions(self.transactions@.len());
        let ghost pred = |i: usize| in_range(self.transactions@[i as int].date, lo, hi);
        let mut r: Vec<usize> = Vec::new();
        let mut i: usize = 0;
        while i < self.transactions.len()
            invariant
                i <= self.transactions@.len(),
                all == positions(self.transactions@.len()),
                pred == (|i: usize| in_range(self.transactions@[i as int].date, lo, hi)),
                r@ == all.take(i as int).filter(pred),
                forall|k: int| 0 <= k < r@.len() ==> #[trigger] r@[k] < i,
            decreases self.transactions@.len() - i,
        {
            proof {
                lemma_filter_step(all, i as int, pred);
                assert(all[i as int] == i);
            }
            if crate::ledger::within(&self.transactions[i].date, &lo, &hi) {
                r.push(i);
            }
            i = i + 1;
        }
        proof {
            assert(all.take(i as int) =~= all);
        }
        r
    }

    /// Whether `name` has a balance in one of `groups`.
    fn is_active(groups: &Vec<((i32, i32), Balances)>, name: &str) -> (r: bool)
        requires
            forall|a: int| 0 <= a < groups@.len() ==> (#[trigger] groups@[a]).1.wf(),
        ensures
            r == active(groups@, name@),
    {
        let mut a: usize = 0;
        while a < groups.len()
            invariant
                a <= groups@.len(),
                forall|x: int| 0 <= x < groups@.len() ==> (#[trigger] groups@[x]).1.wf(),
                forall|x: int| 0 <= x < a ==> !(#[trigger] groups@[x]).1@.contains_key(name@),
            decreases groups@.len() - a,
        {
            if groups[a].1.get(name).is_some() {
                return true;
            }
            a = a + 1;
        }
        false
    }

    /// Whether account `a` is of one of the named types.
    fn is_type_kept(a: &Account, types: Option<&Vec<String>>) -> (r: bool)
        ensures
            r == type_kept(*a, types_option(types)),
    {
        match types {
            None => true,
            Some(ts) => {
                let mut j: usize = 0;
                while j < ts.len()
                    invariant
                        j <= ts@.len(),
                        types == Some(ts),
                        forall|k: int| 0 <= k < j ==> a.account_type != account_type_of(#[trigger] ts@[k]@),
                    decreases ts@.len() - j,
                {
                    let name = ts[j].as_str();
                    let k = match AccountType::from_str(name) {
                        Ok(k) => k,
                        Err(_) => AccountType::Unknown,
                    };
                    if a.account_type == k {
                        proof {
                            assert(name@ == ts@[j as int]@);
                            assert(a.account_type == account_type_of(ts@[j as int]@));
                            assert(types_option(types) == Some(ts@));
                            assert(type_kept(*a, Some(ts@)));
                        }
                        return true;
                    }
                    j = j + 1;
                }
                false
            },
        }
    }

    /// The balance sheet: after validation, the transactions dated within
    /// `[from, to]` are grouped by period (`M`, `Q`, `Y`, or one period)
    /// and each period is aggregated, re-priced into `price` where given,
    /// with zero balances dropped. The accounts kept are those of the named
    /// types (all where none are named).
    pub fn balance_report(
        &self,
        from: Option<&str>,
        to: Option<&str>,
        account_types: Option<&Vec<String>>,
        price: Option<&str>,
        group: Option<&str>,
    ) -> (r: Result<BalanceReport, LedgerError>)
        requires
            self.wf(),
        ensures
            match r {
                Ok(rep) => {
                    let sel = dated(self.transactions@, bound_of(from), bound_of(to));
                    &&& ledger_valid(*self) && bound_ok(from) && bound_ok(to)
                    &&& forall|k: int|
                        0 <= k < sel.len() ==> balances_fit(
                            *self,
                            bucket(
                                self.transactions@,
                                sel,
                                text_option(group),
                                #[trigger] period_at(self.transactions@, sel, text_option(group), k),
                            ),
                            text_option(price),
                        )
                    &&& lists_periods(
                        self.transactions@,
                        sel,
                        text_option(group),
                        period_keys(rep.groups@),
                    )
                    &&& forall|a: int|
                        0 <= a < rep.groups@.len() ==> (#[trigger] rep.groups@[a]).1.wf()
                            && rep.groups@[a].1@ == nonzero(
                            balances_of(
                                *self,
                                bucket(self.transactions@, sel, text_option(group), rep.groups@[a].0),
                                text_option(price),
                            ),
                        )
                    &&& rep.periods@.len() == rep.groups@.len()
                    &&& forall|x: (i32, i32)| rep.periods@.contains(x) <==> period_keys(rep.groups@).contains(x)
                    &&& forall|a: int, b: int|
                        0 <= a < b < rep.periods@.len() ==> period_le(rep.periods@[b], rep.periods@[a])
                    &&& forall|a: int, b: int| 0 <= a < b < rep.rows@.len() ==> rep.rows@[a] < rep.rows@[b]
                    &&& forall|p: usize|
                        #![trigger rep.rows@.contains(p)]
                        p < self.accounts@.len() ==> (rep.rows@.contains(p) <==> (type_kept(
                            self.accounts@[p as int],
                            types_option(account_types),
                        ) && active(rep.groups@, self.accounts@[p as int].name@)))
                    &&& forall|a: int, b: int| 0 <= a < b < rep.types@.len() ==> rep.types@[a] != rep.types@[b]
                    &&& forall|t: AccountType|
                        #![trigger rep.types@.contains(t)]
                        rep.types@.contains(t) <==> exists|p: int|
                            0 <= p < self.accounts@.len() && type_kept(
                                #[trigger] self.accounts@[p],
                                types_option(account_types),
                            ) && self.accounts@[p].account_type == t
                },
                Err(LedgerError::Invalid(e)) => !ledger_valid(*self) && reports_first_problem(*self, e),
                Err(LedgerError::InvalidDate(_)) => ledger_valid(*self) && !(bound_ok(from)
                    && bound_ok(to)),
                Err(LedgerError::Overflow) => ledger_valid(*self) && bound_ok(from) && bound_ok(to)
                    && !(forall|k: int|
                    0 <= k < dated(self.transactions@, bound_of(from), bound_of(to)).len()
                        ==> balances_fit(
                        *self,
                        bucket(
                            self.transactions@,
                            dated(self.transactions@, bound_of(from), bound_of(to)),
                            text_option(group),
                            #[trigger] period_at(
                                self.transactions@,
                                dated(self.transactions@, bound_of(from), bound_of(to)),
                                text_option(group),
                                k,
                            ),
                        ),
                        text_option(price),
                    )),
            },
    {
        match self.validate_transactions() {
            Ok(_) => {},
            Err(e) => {
                return Err(LedgerError::Invalid(e));
            },
        }
        let lo = read_bound(from)?;
        let hi = read_bound(to)?;
        let sel = self.dated_positions(lo, hi);
        let groups = match self._group_transactions_by_period(&sel, price, group) {
            Some(g) => g,
            None => {
                return Err(LedgerError::Overflow);
            },
        };
        let mut keys: Vec<(i32, i32)> = Vec::new();
        let mut a: usize = 0;
        while a < groups.len()
            invariant
                a <= groups@.len(),
                keys@ == period_keys(groups@).take(a as int),
            decreases groups@.len() - a,
        {
            keys.push(groups[a].0);
            proof {
                assert(period_keys(groups@).take(a + 1) =~= period_keys(groups@).take(a as int).push(
                    groups@[a as int].0,
                ));
            }
            a = a + 1;
        }
        proof {
            assert(period_keys(groups@).take(a as int) =~= period_keys(groups@));
        }
        let periods = periods_descending(keys);
        let mut rows: Vec<usize> = Vec::new();
        let mut types: Vec<AccountType> = Vec::new();
        let mut p: usize = 0;
        while p < self.accounts.len()
            invariant
                p <= self.accounts@.len(),
                forall|x: int| 0 <= x < groups@.len() ==> (#[trigger] groups@[x]).1.wf(),
                forall|x: int, y: int| 0 <= x < y < rows@.len() ==> rows@[x] < rows@[y],
                forall|x: int| 0 <= x < rows@.len() ==> #[trigger] rows@[x] < p,
                forall|q: usize|
                    #![trigger rows@.contains(q)]
                    q < self.accounts@.len() ==> (rows@.contains(q) <==> (q < p && type_kept(
                        self.accounts@[q as int],
                        types_option(account_types),
                    ) && active(groups@, self.accounts@[q as int].name@))),
                forall|x: int, y: int| 0 <= x < y < types@.len() ==> types@[x] != types@[y],
                forall|t: AccountType|
                    #![trigger types@.contains(t)]
                    types@.contains(t) <==> exists|q: int|
                        0 <= q < p && type_kept(#[trigger] self.accounts@[q], types_option(account_types))
                            && self.accounts@[q].account_type == t,
            decreases self.accounts@.len() - p,
        {
            let acc = &self.accounts[p];
            if Self::is_type_kept(acc, account_types) {
                if Self::is_active(&groups, acc.name.as_str()) {
                    let ghost old_rows = rows@;
                    rows.push(p);
                    proof {
                        assert forall|q: usize| #![trigger rows@.contains(q)] q < self.accounts@.len()
                            implies (rows@.contains(q) <==> (q < p + 1 && type_kept(
                            self.accounts@[q as int],
                            types_option(account_types),
                        ) && active(groups@, self.accounts@[q as int].name@))) by {
                            if q == p {
                                assert(rows@[old_rows.len() as int] == q);
                            } else {
                                assert(rows@.contains(q) <==> old_rows.contains(q)) by {
                                    if rows@.contains(q) {
                                        let k = choose|k: int| 0 <= k < rows@.len() && rows@[k] == q;
                                        assert(k < old_rows.len());
                                        assert(old_rows[k] == q);
                                    }
                                    if old_rows.contains(q) {
                                        let k = choose|k: int|
                                            0 <= k < old_rows.len() && old_rows[k] == q;
                                        assert(rows@[k] == q);
                                    }
                                }
                            }
                        }
                    }
                } else {
                    proof {
                        assert forall|q: usize| #![trigger rows@.contains(q)] q < self.accounts@.len()
                            implies (rows@.contains(q) <==> (q < p + 1 && type_kept(
                            self.accounts@[q as int],
                            types_option(account_types),
                        ) && active(groups@, self.accounts@[q as int].name@))) by {
                            if q == p {
                                if rows@.contains(q) {
                                    let k = choose|k: int| 0 <= k < rows@.len() && rows@[k] == q;
                                }
                            }
                        }
                    }
                }
                let mut seen = false;
                let mut j: usize = 0;
                while j < types.len()
                    invariant
                        j <= types@.len(),
                        seen <==> exists|x: int| 0 <= x < j && types@[x] == acc.account_type,
                    decreases types@.len() - j,
                {
                    if types[j] == acc.account_type {
                        seen = true;
                    }
                    j = j + 1;
                }
                let ghost old_types = types@;
                if !seen {
                    types.push(acc.account_type);
                    proof {
                        assert forall|t: AccountType| #![trigger types@.contains(t)] types@.contains(t)
                            <==> exists|q: int|
                            0 <= q < p + 1 && type_kept(
                                #[trigger] self.accounts@[q],
                                types_option(account_types),
                            ) && self.accounts@[q].account_type == t by {
                            if types@.contains(t) {
                                let k = choose|k: int| 0 <= k < types@.len() && types@[k] == t;
                                if k < old_types.len() {
                                    assert(old_types[k] == t);
                                    assert(old_types.contains(t));
                                } else {
                                    assert(self.accounts@[p as int].account_type == t);
                                }
                            }
                            if exists|q: int|
                                0 <= q < p + 1 && type_kept(
                                    #[trigger] self.accounts@[q],
                                    types_option(account_types),
                                ) && self.accounts@[q].account_type == t {
                                let q = choose|q: int|
                                    0 <= q < p + 1 && type_kept(
                                        #[trigger] self.accounts@[q],
                                        types_option(account_types),
                                    ) && self.accounts@[q].account_type == t;
                                if q < p {
                                    assert(old_types.contains(t));
                                    let k = choose|k: int| 0 <= k < old_types.len() && old_types[k] == t;
                                    assert(types@[k] == t);
                                } else {
                                    assert(types@[old_types.len() as int] == t);
                                }
                            }
                        }
                    }
                } else {
                    proof {
                        assert forall|t: AccountType| #![trigger types@.contains(t)] types@.contains(t)
                            <==> exists|q: int|
                            0 <= q < p + 1 && type_kept(
                                #[trigger] self.accounts@[q],
                                types_option(account_types),
                            ) && self.accounts@[q].account_type == t by {
                            if exists|q: int|
                                0 <= q < p + 1 && type_kept(
                                    #[trigger] self.accounts@[q],
                                    types_option(account_types),
                                ) && self.accounts@[q].account_type == t {
                                let q = choose|q: int|
                                    0 <= q < p + 1 && type_kept(
                                        #[trigger] self.accounts@[q],
                                        types_option(account_types),
                                    ) && self.accounts@[q].account_type == t;
                                if q == p {
                                    let x = choose|x: int| 0 <= x < j && types@[x] == acc.account_type;
                                    assert(types@.contains(t));
                                }
                            }
                        }
                    }
                }
            } else {
                proof {
                    assert forall|q: usize| #![trigger rows@.contains(q)] q < self.accounts@.len()
                        implies (rows@.contains(q) <==> (q < p + 1 && type_kept(
                        self.accounts@[q as int],
                        types_option(account_types),
                    ) && active(groups@, self.accounts@[q as int].name@))) by {
                        if q == p {
                            if rows@.contains(q) {
                                let k = choose|k: int| 0 <= k < rows@.len() && rows@[k] == q;
                            }
                        }
                    }
                    assert forall|t: AccountType| #![trigger types@.contains(t)] types@.contains(t)
                        <==> exists|q: int|
                        0 <= q < p + 1 && type_kept(
                            #[trigger] self.accounts@[q],
                            types_option(account_types),
                        ) && self.accounts@[q].account_type == t by {
                        if exists|q: int|
                            0 <= q < p + 1 && type_kept(
                                #[trigger] self.accounts@[q],
                                types_option(account_types),
                            ) && self.accounts@[q].account_type == t {
                            let q = choose|q: int|
                                0 <= q < p + 1 && type_kept(
                                    #[trigger] self.accounts@[q],
                                    types_option(account_types),
                                ) && self.accounts@[q].account_type == t;
                            assert(q < p);
                        }
                    }
                }
            }
            p = p + 1;
        }
        Ok(BalanceReport { groups, periods, rows, types })
    }
}

} // verus!
