//! Account balances: opening balances plus the legs of transactions, and
//! re-pricing into a target currency.

use crate::accounts::Account;
use crate::amount::{mul_scaled, scaled_mul};
use crate::ledger::Ledger;
use crate::price::Price;
use crate::text::text_is;
use crate::transaction::Transaction;
use vstd::prelude::*;

verus! {

pub open spec fn in_i128(x: int) -> bool {
    i128::MIN <= x <= i128::MAX
}

/// The value at `k`, zero where there is none.
pub open spec fn get0(m: Map<Seq<char>, int>, k: Seq<char>) -> int {
    if m.contains_key(k) {
        m[k]
    } else {
        0
    }
}

/// Balances by account name, in millionths.
pub struct Balances {
    pub entries: Vec<(String, i128)>,
    pub model: Ghost<Map<Seq<char>, int>>,
}

impl Balances {
    /// Names are distinct and the entries are exactly the model.
    pub open spec fn wf(&self) -> bool {
        &&& forall|i: int, j: int|
            0 <= i < j < self.entries@.len() ==> self.entries@[i].0@ != self.entries@[j].0@
        &&& forall|i: int|
            0 <= i < self.entries@.len() ==> self.model@.contains_key(
                (#[trigger] self.entries@[i]).0@,
            ) && self.model@[self.entries@[i].0@] == self.entries@[i].1
        &&& forall|k: Seq<char>| #[trigger]
            self.model@.contains_key(k) ==> exists|i: int|
                0 <= i < self.entries@.len() && self.entries@[i].0@ == k
    }

    pub open spec fn view(&self) -> Map<Seq<char>, int> {
        self.model@
    }

    /// No balances.
    pub fn new() -> (r: Balances)
        ensures
            r.wf(),
            r@ == Map::<Seq<char>, int>::empty(),
    {
        Balances { entries: Vec::new(), model: Ghost(Map::empty()) }
    }

    /// Position of the entry for `name`.
    fn position(&self, name: &str) -> (r: Option<usize>)
        requires
            self.wf(),
        ensures
            match r {
                Some(i) => i < self.entries@.len() && self.entries@[i as int].0@ == name@,
                None => !self@.contains_key(name@),
            },
    {
        let mut i: usize = 0;
        while i < self.entries.len()
            invariant
                self.wf(),
                i <= self.entries@.len(),
                forall|j: int| 0 <= j < i ==> self.entries@[j].0@ != name@,
            decreases self.entries@.len() - i,
        {
            if text_is(self.entries[i].0.as_str(), name) {
                return Some(i);
            }
            i = i + 1;
        }
        None
    }

    /// The balance of `name`, if it has one.
    pub fn get(&self, name: &str) -> (r: Option<i128>)
        requires
            self.wf(),
        ensures
            match r {
                Some(v) => self@.contains_key(name@) && self@[name@] == v,
                None => !self@.contains_key(name@),
            },
    {
        match self.position(name) {
            Some(i) => Some(self.entries[i].1),
            None => None,
        }
    }

    /// Sets the balance of `name` to `v`.
    fn put(&mut self, name: &String, v: i128)
        requires
            old(self).wf(),
        ensures
            final(self).wf(),
            final(self)@ == old(self)@.insert(name@, v as int),
    {
        let ghost m = self.model@;
        match self.position(name.as_str()) {
            Some(i) => {
                let ghost old_entries = self.entries@;
                self.entries.set(i, (name.clone(), v));
                self.model = Ghost(m.insert(name@, v as int));
                proof {
                    assert forall|k: Seq<char>| #[trigger]
                        self.model@.contains_key(k) implies exists|j: int|
                            0 <= j < self.entries@.len() && self.entries@[j].0@ == k by {
                        if k != name@ {
                            let j = choose|j: int|
                                0 <= j < old_entries.len() && old_entries[j].0@ == k;
                            assert(self.entries@[j] == old_entries[j]);
                        } else {
                            assert(self.entries@[i as int].0@ == k);
                        }
                    }
                }
            },
            None => {
                let ghost old_entries = self.entries@;
                self.entries.push((name.clone(), v));
                self.model = Ghost(m.insert(name@, v as int));
                proof {
                    assert forall|k: Seq<char>| #[trigger]
                        self.model@.contains_key(k) implies exists|j: int|
                            0 <= j < self.entries@.len() && self.entries@[j].0@ == k by {
                        if k != name@ {
                            let j = choose|j: int|
                                0 <= j < old_entries.len() && old_entries[j].0@ == k;
                            assert(self.entries@[j] == old_entries[j]);
                        } else {
                            assert(self.entries@[old_entries.len() as int].0@ == k);
                        }
                    }
                    assert forall|a: int, b: int|
                        0 <= a < b < self.entries@.len() implies self.entries@[a].0@
                        != self.entries@[b].0@ by {
                        if b == old_entries.len() {
                            assert(old_entries[a] == self.entries@[a]);
                            assert(m.contains_key(old_entries[a].0@));
                        }
                    }
                }
            },
        }
    }

    /// Adds `v` to the balance of `name`; fails, changing nothing, where the
    /// sum does not fit.
    pub fn add(&mut self, name: &String, v: i128) -> (ok: bool)
        requires
            old(self).wf(),
        ensures
            final(self).wf(),
            ok == in_i128(get0(old(self)@, name@) + v),
            ok ==> final(self)@ == old(self)@.insert(name@, get0(old(self)@, name@) + v),
            !ok ==> final(self)@ == old(self)@,
    {
        let cur: i128 = match self.get(name.as_str()) {
            Some(c) => c,
            None => 0,
        };
        match cur.checked_add(v) {
            Some(s) => {
                self.put(name, s);
                true
            },
            None => false,
        }
    }

    /// Drops the balances that are exactly zero.
    pub fn retain_nonzero(&mut self)
        requires
            old(self).wf(),
        ensures
            final(self).wf(),
            final(self)@ == nonzero(old(self)@),
    {
        let ghost m = self@;
        let ghost entries = self.entries@;
        let ghost mut src: Seq<int> = Seq::empty();
        let mut kept: Vec<(String, i128)> = Vec::new();
        let mut i: usize = 0;
        while i < self.entries.len()
            invariant
                self.wf(),
                m == self@,
                entries == self.entries@,
                i <= entries.len(),
                src.len() == kept@.len(),
                forall|a: int|
                    0 <= a < src.len() ==> 0 <= #[trigger] src[a] < i && kept@[a] == entries[src[a]]
                        && entries[src[a]].1 != 0,
                forall|a: int, b: int| 0 <= a < b < src.len() ==> src[a] < src[b],
                forall|j: int|
                    0 <= j < i && #[trigger] entries[j].1 != 0 ==> exists|a: int|
                        0 <= a < src.len() && src[a] == j,
            decreases entries.len() - i,
        {
            if self.entries[i].1 != 0 {
                kept.push((self.entries[i].0.clone(), self.entries[i].1));
                proof {
                    let old_src = src;
                    src = src.push(i as int);
                    assert forall|j: int|
                        0 <= j < i + 1 && #[trigger] entries[j].1 != 0 implies exists|a: int|
                            0 <= a < src.len() && src[a] == j by {
                        if j < i {
                            let a = choose|a: int| 0 <= a < old_src.len() && old_src[a] == j;
                            assert(src[a] == j);
                        } else {
                            assert(src[old_src.len() as int] == j);
                        }
                    }
                }
            }
            i = i + 1;
        }
        proof {
            assert(forall|j: int|
                0 <= j < entries.len() ==> m.contains_key(#[trigger] entries[j].0@) && m[entries[j].0@]
                    == entries[j].1);
            assert(forall|k: Seq<char>| #[trigger]
                m.contains_key(k) ==> exists|j: int| 0 <= j < entries.len() && entries[j].0@ == k);
        }
        self.entries = kept;
        self.model = Ghost(nonzero(m));
        proof {
            assert forall|a: int, b: int|
                0 <= a < b < self.entries@.len() implies self.entries@[a].0@
                != self.entries@[b].0@ by {
                assert(src[a] < src[b]);
            }
            assert forall|a: int| 0 <= a < self.entries@.len() implies self.model@.contains_key(
                (#[trigger] self.entries@[a]).0@,
            ) && self.model@[self.entries@[a].0@] == self.entries@[a].1 by {
                assert(kept@[a] == entries[src[a]]);
            }
            assert forall|k: Seq<char>| #[trigger] self.model@.contains_key(k) implies exists|a: int|
                0 <= a < self.entries@.len() && self.entries@[a].0@ == k by {
                assert(m.contains_key(k) && m[k] != 0);
                let j = choose|j: int| 0 <= j < entries.len() && entries[j].0@ == k;
                assert(m[entries[j].0@] == entries[j].1);
                assert(entries[j].1 != 0);
                assert(j < i);
                assert(exists|a: int| 0 <= a < src.len() && src[a] == j);
                let a = choose|a: int| 0 <= a < src.len() && src[a] == j;
                assert(kept@[a] == entries[j]);
                assert(self.entries@[a].0@ == k);
            }
        }
    }

    /// Multiplies the balance of `name` by the fixed-point rate `p`; fails,
    /// changing nothing, where the product does not fit.
    pub fn scale(&mut self, name: &String, p: i64) -> (ok: bool)
        requires
            old(self).wf(),
        ensures
            final(self).wf(),
            ok == in_i128(get0(old(self)@, name@) * p),
            ok ==> final(self)@ == old(self)@.insert(
                name@,
                scaled_mul(get0(old(self)@, name@), p as int),
            ),
            !ok ==> final(self)@ == old(self)@,
    {
        let cur: i128 = match self.get(name.as_str()) {
            Some(c) => c,
            None => 0,
        };
        match mul_scaled(cur, p as i128) {
            Some(s) => {
                self.put(name, s);
                true
            },
            None => false,
        }
    }
}


/// The entries of `m` that are not zero.
pub open spec fn nonzero(m: Map<Seq<char>, int>) -> Map<Seq<char>, int> {
    Map::new(|k: Seq<char>| m.contains_key(k) && m[k] != 0, |k: Seq<char>| m[k])
}

/// The text that an optional argument holds.
pub open spec fn text_option(o: Option<&str>) -> Option<Seq<char>> {
    match o {
        Some(c) => Some(c@),
        None => None,
    }
}

/// An account's opening balance, zero where it has none.
pub open spec fn opening_amount(a: Account) -> int {
    match a.opening_balance {
        Some(v) => v as int,
        None => 0,
    }
}

/// The primary leg: `amount * quantity`.
pub open spec fn leg_amount(t: Transaction) -> int {
    scaled_mul(t.amount as int, t.quantity as int)
}

/// One posting per account: its opening balance.
pub open spec fn opening_postings(accounts: Seq<Account>) -> Seq<(Seq<char>, int)> {
    accounts.map_values(|a: Account| (a.name@, opening_amount(a)))
}

/// Two postings per selected transaction: `amount * quantity` to its
/// account, then `offset_amount` (without the quantity) to its offset
/// account.
pub open spec fn transaction_postings(txs: Seq<Transaction>, sel: Seq<usize>) -> Seq<
    (Seq<char>, int),
>
    decreases sel.len(),
{
    if sel.len() == 0 {
        Seq::empty()
    } else {
        let t = txs[sel.last() as int];
        transaction_postings(txs, sel.drop_last()) + seq![
            (t.account@, leg_amount(t)),
            (t.offset_account@, t.offset_amount as int),
        ]
    }
}

/// Every posting that makes up the balances of the selected transactions.
pub open spec fn postings(accounts: Seq<Account>, txs: Seq<Transaction>, sel: Seq<usize>) -> Seq<
    (Seq<char>, int),
> {
    opening_postings(accounts) + transaction_postings(txs, sel)
}

/// Postings summed by name, in order.
pub open spec fn totals(ps: Seq<(Seq<char>, int)>) -> Map<Seq<char>, int>
    decreases ps.len(),
{
    if ps.len() == 0 {
        Map::empty()
    } else {
        let m = totals(ps.drop_last());
        m.insert(ps.last().0, get0(m, ps.last().0) + ps.last().1)
    }
}

/// Every running total stays within `i128`.
pub open spec fn totals_fit(ps: Seq<(Seq<char>, int)>) -> bool {
    forall|i: int| 0 <= i < ps.len() ==> #[trigger] in_i128(get0(totals(ps.take(i)), ps[i].0) + ps[i].1)
}

/// `p` quotes `commodity` in `target`.
pub open spec fn quotes(p: Price, target: Seq<char>, commodity: Seq<char>) -> bool {
    p.currency@ == target && p.commodity@ == commodity
}

/// `prices[i]` is the most recent quote of `commodity` in `target`, the
/// first so dated where several share that date.
pub open spec fn latest_at(prices: Seq<Price>, target: Seq<char>, commodity: Seq<char>, i: int) -> bool {
    &&& 0 <= i < prices.len()
    &&& quotes(prices[i], target, commodity)
    &&& forall|j: int|
        0 <= j < prices.len() && quotes(#[trigger] prices[j], target, commodity) ==> prices[j].date.spec_le(
            &prices[i].date,
        )
    &&& forall|j: int|
        0 <= j < i && quotes(#[trigger] prices[j], target, commodity) ==> prices[j].date.spec_lt(
            &prices[i].date,
        )
}

/// The most recent rate of `commodity` in `target`.
pub open spec fn rate(prices: Seq<Price>, target: Seq<char>, commodity: Seq<char>) -> Option<int> {
    if exists|i: int| latest_at(prices, target, commodity, i) {
        Some(prices[choose|i: int| latest_at(prices, target, commodity, i)].price as int)
    } else {
        None
    }
}

/// Each account (in order) whose currency has a rate in `target` has its
/// balance multiplied by that rate.
pub open spec fn reprice(
    m: Map<Seq<char>, int>,
    accounts: Seq<Account>,
    prices: Seq<Price>,
    target: Seq<char>,
) -> Map<Seq<char>, int>
    decreases accounts.len(),
{
    if accounts.len() == 0 {
        m
    } else {
        let m1 = reprice(m, accounts.drop_last(), prices, target);
        let a = accounts.last();
        match rate(prices, target, a.currency@) {
            Some(p) => m1.insert(a.name@, scaled_mul(get0(m1, a.name@), p)),
            None => m1,
        }
    }
}

/// Every product of re-pricing fits in `i128`.
pub open spec fn reprice_fits(
    m: Map<Seq<char>, int>,
    accounts: Seq<Account>,
    prices: Seq<Price>,
    target: Seq<char>,
) -> bool {
    forall|i: int|
        0 <= i < accounts.len() && #[trigger] rate(prices, target, accounts[i].currency@) is Some
            ==> in_i128(
            get0(reprice(m, accounts.take(i), prices, target), accounts[i].name@) * rate(
                prices,
                target,
                accounts[i].currency@,
            )->Some_0,
        )
}

/// The balances of the selected transactions, re-priced into `target` where
/// one is given.
pub open spec fn balances_of(l: Ledger, sel: Seq<usize>, target: Option<Seq<char>>) -> Map<
    Seq<char>,
    int,
> {
    let m = totals(postings(l.accounts@, l.transactions@, sel));
    match target {
        Some(c) => reprice(m, l.accounts@, l.prices@, c),
        None => m,
    }
}

/// The arithmetic of `balances_of` stays within `i128`.
pub open spec fn balances_fit(l: Ledger, sel: Seq<usize>, target: Option<Seq<char>>) -> bool {
    let ps = postings(l.accounts@, l.transactions@, sel);
    &&& totals_fit(ps)
    &&& match target {
        Some(c) => reprice_fits(totals(ps), l.accounts@, l.prices@, c),
        None => true,
    }
}

proof fn lemma_totals_step(ps: Seq<(Seq<char>, int)>, k: int)
    requires
        0 <= k < ps.len(),
    ensures
        totals(ps.take(k + 1)) == totals(ps.take(k)).insert(
            ps[k].0,
            get0(totals(ps.take(k)), ps[k].0) + ps[k].1,
        ),
{
    assert(ps.take(k + 1).drop_last() =~= ps.take(k));
    assert(ps.take(k + 1).last() == ps[k]);
}

proof fn lemma_transaction_postings(txs: Seq<Transaction>, sel: Seq<usize>)
    ensures
        transaction_postings(txs, sel).len() == 2 * sel.len(),
        forall|j: int|
            0 <= j < sel.len() ==> transaction_postings(txs, sel)[2 * j] == (
                txs[sel[j] as int].account@,
                leg_amount(txs[sel[j] as int]),
            ) && transaction_postings(txs, sel)[2 * j + 1] == (
                txs[sel[j] as int].offset_account@,
                txs[sel[j] as int].offset_amount as int,
            ),
    decreases sel.len(),
{
    if sel.len() > 0 {
        let d = sel.drop_last();
        lemma_transaction_postings(txs, d);
        let t = txs[sel.last() as int];
        let tail = seq![(t.account@, leg_amount(t)), (t.offset_account@, t.offset_amount as int)];
        let whole = transaction_postings(txs, sel);
        assert(whole == transaction_postings(txs, d) + tail);
        assert forall|j: int| 0 <= j < sel.len() implies whole[2 * j] == (
            txs[sel[j] as int].account@,
            leg_amount(txs[sel[j] as int]),
        ) && whole[2 * j + 1] == (
            txs[sel[j] as int].offset_account@,
            txs[sel[j] as int].offset_amount as int,
        ) by {
            if j < d.len() {
                assert(sel[j] == d[j]);
                assert(whole[2 * j] == transaction_postings(txs, d)[2 * j]);
                assert(whole[2 * j + 1] == transaction_postings(txs, d)[2 * j + 1]);
            } else {
                assert(whole[2 * j] == tail[0]);
                assert(whole[2 * j + 1] == tail[1]);
            }
        }
    }
}

proof fn lemma_reprice_step(
    m: Map<Seq<char>, int>,
    accounts: Seq<Account>,
    prices: Seq<Price>,
    target: Seq<char>,
    i: int,
)
    requires
        0 <= i < accounts.len(),
    ensures
        reprice(m, accounts.take(i + 1), prices, target) == (match rate(
            prices,
            target,
            accounts[i].currency@,
        ) {
            Some(p) => reprice(m, accounts.take(i), prices, target).insert(
                accounts[i].name@,
                scaled_mul(get0(reprice(m, accounts.take(i), prices, target), accounts[i].name@), p),
            ),
            None => reprice(m, accounts.take(i), prices, target),
        }),
{
    assert(accounts.take(i + 1).drop_last() =~= accounts.take(i));
    assert(accounts.take(i + 1).last() == accounts[i]);
}

/// Position of the most recent quote of `commodity` in `target`.
pub fn latest_price(prices: &Vec<Price>, target: &str, commodity: &str) -> (r: Option<usize>)
    ensures
        match r {
            Some(i) => latest_at(prices@, target@, commodity@, i as int) && rate(
                prices@,
                target@,
                commodity@,
            ) == Some(prices@[i as int].price as int),
            None => rate(prices@, target@, commodity@) is None && forall|j: int|
                0 <= j < prices@.len() ==> !quotes(#[trigger] prices@[j], target@, commodity@),
        },
{
    let mut best: Option<usize> = None;
    let mut j: usize = 0;
    while j < prices.len()
        invariant
            j <= prices@.len(),
            match best {
                Some(b) => b < j && quotes(prices@[b as int], target@, commodity@) && (forall|
                    k: int,
                |
                    0 <= k < j && quotes(#[trigger] prices@[k], target@, commodity@)
                        ==> prices@[k].date.spec_le(&prices@[b as int].date)) && (forall|k: int|
                    0 <= k < b && quotes(#[trigger] prices@[k], target@, commodity@)
                        ==> prices@[k].date.spec_lt(&prices@[b as int].date)),
                None => forall|k: int|
                    0 <= k < j ==> !quotes(#[trigger] prices@[k], target@, commodity@),
            },
        decreases prices@.len() - j,
    {
        let p = &prices[j];
        if text_is(p.currency.as_str(), target) && text_is(p.commodity.as_str(), commodity) {
            match best {
                None => {
                    best = Some(j);
                },
                Some(b) => {
                    if prices[b].date.lt(&p.date) {
                        best = Some(j);
                    }
                },
            }
        }
        j = j + 1;
    }
    match best {
        Some(b) => {
            proof {
                assert(latest_at(prices@, target@, commodity@, b as int));
                assert forall|k: int| #[trigger] latest_at(prices@, target@, commodity@, k) implies k
                    == b by {
                    if k < b {
                        assert(prices@[k].date.spec_lt(&prices@[b as int].date));
                    } else if k > b {
                        assert(prices@[b as int].date.spec_lt(&prices@[k].date));
                    }
                }
            }
            Some(b)
        },
        None => None,
    }
}

impl Ledger {
    /// Balances of the selected transactions (positions in
    /// `self.transactions`): each account starts from its opening balance,
    /// each transaction adds `amount * quantity` to its account and
    /// `offset_amount` to its offset account. With a target currency, each
    /// account whose currency has a price in it is multiplied by the most
    /// recent such price; the others stay in their own currency. `None`
    /// where the arithmetic leaves `i128`.
    pub fn _get_balances(&self, transactions: &Vec<usize>, price: Option<&str>) -> (r: Option<
        Balances,
    >)
        requires
            forall|k: int|
                0 <= k < transactions@.len() ==> #[trigger] transactions@[k]
                    < self.transactions@.len(),
        ensures
            r is Some <==> balances_fit(*self, transactions@, text_option(price)),
            match r {
                Some(b) => b.wf() && b@ == balances_of(
                    *self,
                    transactions@,
                    text_option(price),
                ),
                None => true,
            },
    {
        let ghost ps = postings(self.accounts@, self.transactions@, transactions@);
        let ghost na = self.accounts@.len();
        proof {
            lemma_transaction_postings(self.transactions@, transactions@);
        }
        let mut b = Balances::new();
        let mut i: usize = 0;
        while i < self.accounts.len()
            invariant
                i <= self.accounts@.len(),
                na == self.accounts@.len(),
                ps == postings(self.accounts@, self.transactions@, transactions@),
                ps.len() == na + 2 * transactions@.len(),
                b.wf(),
                b@ == totals(ps.take(i as int)),
                forall|q: int| 0 <= q < i ==> #[trigger] in_i128(get0(totals(ps.take(q)), ps[q].0) + ps[q].1),
            decreases self.accounts@.len() - i,
        {
            let a = &self.accounts[i];
            let v: i128 = match a.opening_balance {
                Some(o) => o as i128,
                None => 0,
            };
            proof {
                assert(ps[i as int] == (a.name@, opening_amount(*a)));
                lemma_totals_step(ps, i as int);
            }
            if !b.add(&a.name, v) {
                return None;
            }
            i = i + 1;
        }
        let mut j: usize = 0;
        while j < transactions.len()
            invariant
                j <= transactions@.len(),
                na == self.accounts@.len(),
                forall|k: int|
                    0 <= k < transactions@.len() ==> #[trigger] transactions@[k]
                        < self.transactions@.len(),
                ps == postings(self.accounts@, self.transactions@, transactions@),
                ps.len() == na + 2 * transactions@.len(),
                forall|jj: int|
                    0 <= jj < transactions@.len() ==> transaction_postings(
                        self.transactions@,
                        transactions@,
                    )[2 * jj] == (
                        self.transactions@[transactions@[jj] as int].account@,
                        leg_amount(self.transactions@[transactions@[jj] as int]),
                    ) && transaction_postings(self.transactions@, transactions@)[2 * jj + 1] == (
                        self.transactions@[transactions@[jj] as int].offset_account@,
                        self.transactions@[transactions@[jj] as int].offset_amount as int,
                    ),
                b.wf(),
                b@ == totals(ps.take(na + 2 * j)),
                forall|q: int|
                    0 <= q < na + 2 * j ==> #[trigger] in_i128(get0(totals(ps.take(q)), ps[q].0) + ps[q].1),
            decreases transactions@.len() - j,
        {
            let t = &self.transactions[transactions[j]];
            proof {
                assert(ps[na + 2 * j] == transaction_postings(self.transactions@, transactions@)[2
                    * j]);
                assert(ps[na + 2 * j + 1] == transaction_postings(self.transactions@, transactions@)[2
                    * j + 1]);
                lemma_totals_step(ps, na + 2 * j);
                lemma_totals_step(ps, na + 2 * j + 1);
                assert(in_i128(t.amount as int * t.quantity as int)) by (nonlinear_arith)
                    requires
                        i64::MIN <= t.amount <= i64::MAX,
                        i64::MIN <= t.quantity <= i64::MAX,
                ;
            }
            let leg: i128 = match mul_scaled(t.amount as i128, t.quantity as i128) {
                Some(v) => v,
                None => 0,
            };
            if !b.add(&t.account, leg) {
                return None;
            }
            if !b.add(&t.offset_account, t.offset_amount as i128) {
                return None;
            }
            j = j + 1;
        }
        proof {
            assert(ps.take(ps.len() as int) =~= ps);
        }
        match price {
            None => Some(b),
            Some(target) => {
                let ghost m0 = b@;
                assert(m0 == totals(ps));
                let mut i: usize = 0;
                while i < self.accounts.len()
                    invariant
                        i <= self.accounts@.len(),
                        b.wf(),
                        b@ == reprice(m0, self.accounts@.take(i as int), self.prices@, target@),
                        price == Some(target),
                        m0 == totals(ps),
                        ps == postings(self.accounts@, self.transactions@, transactions@),
                        totals_fit(ps),
                        forall|q: int|
                            0 <= q < i && #[trigger] rate(
                                self.prices@,
                                target@,
                                self.accounts@[q].currency@,
                            ) is Some ==> in_i128(
                                get0(
                                    reprice(m0, self.accounts@.take(q), self.prices@, target@),
                                    self.accounts@[q].name@,
                                ) * rate(self.prices@, target@, self.accounts@[q].currency@)->Some_0,
                            ),
                    decreases self.accounts@.len() - i,
                {
                    proof {
                        assert(self.accounts@.take(0) =~= Seq::<Account>::empty());
                        lemma_reprice_step(m0, self.accounts@, self.prices@, target@, i as int);
                    }
                    let a = &self.accounts[i];
                    match latest_price(&self.prices, target, a.currency.as_str()) {
                        Some(pi) => {
                            if !b.scale(&a.name, self.prices[pi].price) {
                                proof {
                                    assert(rate(self.prices@, target@, self.accounts@[i as int].currency@) is Some);
                                    assert(!reprice_fits(m0, self.accounts@, self.prices@, target@));
                                    assert(text_option(price) == Some(target@));
                                    assert(!balances_fit(*self, transactions@, text_option(price)));
                                }
                                return None;
                            }
                        },
                        None => {},
                    }
                    i = i + 1;
                }
                proof {
                    assert(self.accounts@.take(self.accounts@.len() as int) =~= self.accounts@);
                }
                Some(b)
            },
        }
    }
}

} // verus!
