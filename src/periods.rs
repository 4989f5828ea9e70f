//! Grouping transactions into periods (month, quarter or year), with the
//! balances of each period.

use crate::balances::{balances_fit, balances_of, nonzero, text_option, Balances};
use crate::date::{quarter, quarter_of, Date};
use crate::ledger::{lemma_filter_step, Ledger};
use crate::text::text_is;
use crate::transaction::Transaction;
use vstd::prelude::*;

verus! {

/// The period of a date: `M` gives (year, month), `Q` (year, quarter), `Y`
/// (year, year); anything else, or no unit, the single period (0, 0).
pub open spec fn period_of(d: Date, group: Option<Seq<char>>) -> (i32, i32) {
    match group {
        Some(g) => if g == "M"@ {
            (d.year, d.month as i32)
        } else if g == "Q"@ {
            (d.year, quarter_of(d.month as int) as i32)
        } else if g == "Y"@ {
            (d.year, d.year)
        } else {
            (0, 0)
        },
        None => (0, 0),
    }
}

/// Selected transactions that fall in period `p`.
pub open spec fn in_period(txs: Seq<Transaction>, group: Option<Seq<char>>, p: (i32, i32)) -> spec_fn(usize) -> bool {
    |i: usize| period_of(txs[i as int].date, group) == p
}

/// The selected transactions of period `p`, in their order.
pub open spec fn bucket(
    txs: Seq<Transaction>,
    sel: Seq<usize>,
    group: Option<Seq<char>>,
    p: (i32, i32),
) -> Seq<usize> {
    sel.filter(in_period(txs, group, p))
}

/// The period of the `k`-th selected transaction.
pub open spec fn period_at(
    txs: Seq<Transaction>,
    sel: Seq<usize>,
    group: Option<Seq<char>>,
    k: int,
) -> (i32, i32) {
    period_of(txs[sel[k] as int].date, group)
}

fn same_period(a: (i32, i32), b: (i32, i32)) -> (r: bool)
    ensures
        r == (a == b),
{
    a.0 == b.0 && a.1 == b.1
}

/// Position of `p` in `keys`.
fn position_of(keys: &Vec<(i32, i32)>, p: (i32, i32)) -> (r: Option<usize>)
    ensures
        match r {
            Some(a) => a < keys@.len() && keys@[a as int] == p,
            None => forall|b: int| 0 <= b < keys@.len() ==> keys@[b] != p,
        },
{
    let mut a: usize = 0;
    while a < keys.len()
        invariant
            a <= keys@.len(),
            forall|b: int| 0 <= b < a ==> keys@[b] != p,
        decreases keys@.len() - a,
    {
        if same_period(keys[a], p) {
            return Some(a);
        }
        a = a + 1;
    }
    None
}

/// The periods of grouped balances.
pub open spec fn period_keys(v: Seq<((i32, i32), Balances)>) -> Seq<(i32, i32)> {
    v.map_values(|e: ((i32, i32), Balances)| e.0)
}

/// `keys` lists, once each, the periods of the selected transactions.
#[verifier::opaque]
pub open spec fn lists_periods(
    txs: Seq<Transaction>,
    sel: Seq<usize>,
    group: Option<Seq<char>>,
    keys: Seq<(i32, i32)>,
) -> bool {
    &&& forall|a: int, b: int| 0 <= a < b < keys.len() ==> keys[a] != keys[b]
    &&& forall|a: int|
        0 <= a < keys.len() ==> exists|k: int|
            0 <= k < sel.len() && period_at(txs, sel, group, k) == #[trigger] keys[a]
    &&& forall|k: int|
        0 <= k < sel.len() ==> exists|a: int|
            0 <= a < keys.len() && keys[a] == #[trigger] period_at(txs, sel, group, k)
}

/// The period of a valid date.
pub fn period_key(d: &Date, group: Option<&str>) -> (r: (i32, i32))
    requires
        d.wf(),
    ensures
        r == period_of(*d, text_option(group)),
{
    match group {
        Some(g) => {
            if text_is(g, "M") {
                (d.year, d.month as i32)
            } else if text_is(g, "Q") {
                (d.year, quarter(d.month) as i32)
            } else if text_is(g, "Y") {
                (d.year, d.year)
            } else {
                (0, 0)
            }
        },
        None => (0, 0),
    }
}

impl Ledger {
    /// Every date in the ledger is a calendar date.
    pub open spec fn wf(&self) -> bool {
        &&& forall|i: int| 0 <= i < self.accounts@.len() ==> (#[trigger] self.accounts@[i]).open.wf()
        &&& forall|i: int|
            0 <= i < self.transactions@.len() ==> (#[trigger] self.transactions@[i]).date.wf()
        &&& forall|i: int| 0 <= i < self.prices@.len() ==> (#[trigger] self.prices@[i]).date.wf()
    }

    /// The distinct periods of the selected transactions, in order of first
    /// appearance.
    fn periods(&self, transactions: &Vec<usize>, group: Option<&str>) -> (r: Vec<(i32, i32)>)
        requires
            self.wf(),
            forall|k: int|
                0 <= k < transactions@.len() ==> #[trigger] transactions@[k]
                    < self.transactions@.len(),
        ensures
            lists_periods(self.transactions@, transactions@, text_option(group), r@),
    {
        let ghost g = text_option(group);
        let ghost txs = self.transactions@;
        let ghost sel = transactions@;
        let mut keys: Vec<(i32, i32)> = Vec::new();
        let mut i: usize = 0;
        proof {
            reveal(lists_periods);
        }
        while i < transactions.len()
            invariant
                self.wf(),
                g == text_option(group),
                txs == self.transactions@,
                sel == transactions@,
                forall|k: int| 0 <= k < sel.len() ==> #[trigger] sel[k] < txs.len(),
                i <= sel.len(),
                lists_periods(txs, sel.take(i as int), g, keys@),
            decreases sel.len() - i,
        {
            proof {
                reveal(lists_periods);
            }
            let p = period_key(&self.transactions[transactions[i]].date, group);
            let ghost s0 = sel.take(i as int);
            let ghost s1 = sel.take(i + 1);
            proof {
                assert forall|k: int| 0 <= k < i implies #[trigger] period_at(txs, s1, g, k)
                    == period_at(txs, s0, g, k) by {
                    assert(s1[k] == s0[k]);
                }
                assert(period_at(txs, s1, g, i as int) == p);
            }
            let ghost old_keys = keys@;
            match position_of(&keys, p) {
                Some(_) => {
                    proof {
                        assert forall|a: int| 0 <= a < keys@.len() implies exists|k: int|
                            0 <= k < s1.len() && period_at(txs, s1, g, k) == #[trigger] keys@[a] by {
                            let k = choose|k: int|
                                0 <= k < s0.len() && period_at(txs, s0, g, k) == keys@[a];
                            assert(period_at(txs, s1, g, k) == period_at(txs, s0, g, k));
                        }
                        assert forall|k: int| 0 <= k < s1.len() implies exists|a: int|
                            0 <= a < keys@.len() && keys@[a] == #[trigger] period_at(
                                txs,
                                s1,
                                g,
                                k,
                            ) by {
                            if k < i {
                                assert(period_at(txs, s1, g, k) == period_at(txs, s0, g, k));
                            }
                        }
                    }
                },
                None => {
                    keys.push(p);
                    proof {
                        assert(keys@[old_keys.len() as int] == p);
                        assert forall|a: int| 0 <= a < keys@.len() implies exists|k: int|
                            0 <= k < s1.len() && period_at(txs, s1, g, k) == #[trigger] keys@[a] by {
                            if a < old_keys.len() {
                                assert(keys@[a] == old_keys[a]);
                                let k = choose|k: int|
                                    0 <= k < s0.len() && period_at(txs, s0, g, k) == old_keys[a];
                                assert(period_at(txs, s1, g, k) == period_at(txs, s0, g, k));
                            } else {
                                assert(period_at(txs, s1, g, i as int) == keys@[a]);
                            }
                        }
                        assert forall|k: int| 0 <= k < s1.len() implies exists|a: int|
                            0 <= a < keys@.len() && keys@[a] == #[trigger] period_at(
                                txs,
                                s1,
                                g,
                                k,
                            ) by {
                            if k < i {
                                assert(period_at(txs, s1, g, k) == period_at(txs, s0, g, k));
                                let a = choose|a: int|
                                    0 <= a < old_keys.len() && old_keys[a] == period_at(
                                        txs,
                                        s0,
                                        g,
                                        k,
                                    );
                                assert(keys@[a] == old_keys[a]);
                            } else {
                                assert(keys@[old_keys.len() as int] == p);
                            }
                        }
                        assert forall|a: int, b: int|
                            0 <= a < b < keys@.len() implies keys@[a] != keys@[b] by {
                            if b == old_keys.len() {
                                assert(keys@[a] == old_keys[a]);
                            } else {
                                assert(keys@[a] == old_keys[a]);
                                assert(keys@[b] == old_keys[b]);
                            }
                        }
                    }
                },
            }
            i = i + 1;
        }
        proof {
            assert(sel.take(i as int) =~= sel);
        }
        keys
    }

    /// The selected transactions that fall in period `p`.
    fn in_bucket(&self, transactions: &Vec<usize>, group: Option<&str>, p: (i32, i32)) -> (r: Vec<
        usize,
    >)
        requires
            self.wf(),
            forall|k: int|
                0 <= k < transactions@.len() ==> #[trigger] transactions@[k]
                    < self.transactions@.len(),
        ensures
            r@ == bucket(self.transactions@, transactions@, text_option(group), p),
            forall|k: int| 0 <= k < r@.len() ==> #[trigger] r@[k] < self.transactions@.len(),
    {
        let ghost g = text_option(group);
        let mut r: Vec<usize> = Vec::new();
        let mut i: usize = 0;
        while i < transactions.len()
            invariant
                self.wf(),
                g == text_option(group),
                forall|k: int|
                    0 <= k < transactions@.len() ==> #[trigger] transactions@[k]
                        < self.transactions@.len(),
                i <= transactions@.len(),
                r@ == transactions@.take(i as int).filter(in_period(self.transactions@, g, p)),
                forall|k: int| 0 <= k < r@.len() ==> #[trigger] r@[k] < self.transactions@.len(),
            decreases transactions@.len() - i,
        {
            proof {
                lemma_filter_step(transactions@, i as int, in_period(self.transactions@, g, p));
            }
            let t = transactions[i];
            if same_period(period_key(&self.transactions[t].date, group), p) {
                r.push(t);
            }
            i = i + 1;
        }
        proof {
            assert(transactions@.take(i as int) =~= transactions@);
        }
        r
    }

    /// Balances of the selected transactions, period by period: each
    /// period's transactions are aggregated on their own, opening balances
    /// included in every period, and zero balances are dropped. Periods come
    /// in order of first appearance. `None` where the arithmetic of some
    /// period leaves `i128`.
    pub fn _group_transactions_by_period(
        &self,
        transactions: &Vec<usize>,
        price: Option<&str>,
        group: Option<&str>,
    ) -> (r: Option<Vec<((i32, i32), Balances)>>)
        requires
            self.wf(),
            forall|k: int|
                0 <= k < transactions@.len() ==> #[trigger] transactions@[k]
                    < self.transactions@.len(),
        ensures
            r is Some <==> forall|k: int|
                0 <= k < transactions@.len() ==> balances_fit(
                    *self,
                    bucket(
                        self.transactions@,
                        transactions@,
                        text_option(group),
                        #[trigger] period_at(self.transactions@, transactions@, text_option(group), k),
                    ),
                    text_option(price),
                ),
            match r {
                Some(v) => {
                    &&& lists_periods(
                        self.transactions@,
                        transactions@,
                        text_option(group),
                        period_keys(v@),
                    )
                    &&& forall|a: int|
                        0 <= a < v@.len() ==> (#[trigger] v@[a]).1.wf() && v@[a].1@ == nonzero(
                            balances_of(
                                *self,
                                bucket(self.transactions@, transactions@, text_option(group), v@[a].0),
                                text_option(price),
                            ),
                        )
                },
                None => true,
            },
    {
        let ghost g = text_option(group);
        let keys = self.periods(transactions, group);
        let mut out: Vec<((i32, i32), Balances)> = Vec::new();
        let mut a: usize = 0;
        while a < keys.len()
            invariant
                self.wf(),
                g == text_option(group),
                forall|k: int|
                    0 <= k < transactions@.len() ==> #[trigger] transactions@[k]
                        < self.transactions@.len(),
                a <= keys@.len(),
                out@.len() == a,
                lists_periods(self.transactions@, transactions@, g, keys@),
                period_keys(out@) == keys@.take(a as int),
                forall|x: int|
                    0 <= x < a ==> (#[trigger] out@[x]).1.wf() && out@[x].1@ == nonzero(
                        balances_of(
                            *self,
                            bucket(self.transactions@, transactions@, g, out@[x].0),
                            text_option(price),
                        ),
                    ),
                forall|x: int|
                    0 <= x < a ==> balances_fit(
                        *self,
                        bucket(self.transactions@, transactions@, g, #[trigger] keys@[x]),
                        text_option(price),
                    ),
            decreases keys@.len() - a,
        {
            let p = keys[a];
            let members = self.in_bucket(transactions, group, p);
            match self._get_balances(&members, price) {
                Some(b) => {
                    let mut b = b;
                    b.retain_nonzero();
                    let ghost old_out = out@;
                    out.push((p, b));
                    proof {
                        assert(period_keys(out@) =~= period_keys(old_out).push(p));
                        assert(keys@.take(a + 1) =~= keys@.take(a as int).push(p));
                    }
                },
                None => {
                    proof {
                        reveal(lists_periods);
                        let k = choose|k: int|
                            0 <= k < transactions@.len() && period_at(
                                self.transactions@,
                                transactions@,
                                g,
                                k,
                            ) == keys@[a as int];
                        assert(!balances_fit(
                            *self,
                            bucket(
                                self.transactions@,
                                transactions@,
                                g,
                                period_at(self.transactions@, transactions@, g, k),
                            ),
                            text_option(price),
                        ));
                    }
                    return None;
                },
            }
            a = a + 1;
        }
        proof {
            reveal(lists_periods);
            assert(period_keys(out@) =~= keys@);
            assert forall|k: int| 0 <= k < transactions@.len() implies balances_fit(
                *self,
                bucket(
                    self.transactions@,
                    transactions@,
                    g,
                    #[trigger] period_at(self.transactions@, transactions@, g, k),
                ),
                text_option(price),
            ) by {
                let x = choose|x: int|
                    0 <= x < keys@.len() && keys@[x] == period_at(
                        self.transactions@,
                        transactions@,
                        g,
                        k,
                    );
                assert(balances_fit(
                    *self,
                    bucket(self.transactions@, transactions@, g, keys@[x]),
                    text_option(price),
                ));
            }
        }
        Some(out)
    }
}

} // verus!
