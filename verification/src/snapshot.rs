//! Preparing the write of a budget snapshot: the budget is stored without
//! its transactions (which are stored as rows of their own) and without
//! its transaction hashes, and only the transaction rows that differ from
//! the stored ones are written.

use crate::auto_budget::{Budget, BudgetTransaction, MatchRule, Period, PlannedItem};
use crate::budget::BudgetingType;
use crate::holidays::UtcDateTime;
use crate::money::Money;
use std::collections::HashMap;
use vstd::prelude::*;

verus! {

broadcast use vstd::std_specs::hash::group_hash_axioms;

/// The stored row of a budget's transaction.
#[derive(Debug)]
pub struct TransactionRow {
    pub id: u128,
    pub budget_id: u128,
    pub account_number: String,
    pub amount: Money,
    pub balance: Money,
    pub description: String,
    pub date: UtcDateTime,
    pub tag_id: Option<u128>,
    pub ignored: bool,
    pub actual_item_id: Option<u128>,
}

/// The mathematical value of a transaction row.
pub struct TransactionRowView {
    pub id: u128,
    pub budget_id: u128,
    pub account_number: Seq<char>,
    pub amount: Money,
    pub balance: Money,
    pub description: Seq<char>,
    pub date: UtcDateTime,
    pub tag_id: Option<u128>,
    pub ignored: bool,
    pub actual_item_id: Option<u128>,
}

impl View for TransactionRow {
    type V = TransactionRowView;

    open spec fn view(&self) -> TransactionRowView {
        TransactionRowView {
            id: self.id,
            budget_id: self.budget_id,
            account_number: self.account_number@,
            amount: self.amount,
            balance: self.balance,
            description: self.description@,
            date: self.date,
            tag_id: self.tag_id,
            ignored: self.ignored,
            actual_item_id: self.actual_item_id,
        }
    }
}

/// The row of a transaction of the budget with the given id.
pub open spec fn row_of(budget_id: u128, t: BudgetTransaction) -> TransactionRowView {
    TransactionRowView {
        id: t.id,
        budget_id,
        account_number: t.account_number@,
        amount: t.amount,
        balance: t.balance,
        description: t.description@,
        date: t.date,
        tag_id: t.tag_id,
        ignored: t.ignored,
        actual_item_id: t.actual_item_id,
    }
}

/// The transactions of the periods, period after period.
pub open spec fn period_transactions(periods: Seq<Period>) -> Seq<BudgetTransaction>
    decreases periods.len(),
{
    if periods.len() == 0 {
        Seq::empty()
    } else {
        period_transactions(periods.drop_last()) + periods.last().transactions@
    }
}

/// The rows of the transactions whose stored row is missing or differs.
pub open spec fn changed_rows(
    budget_id: u128,
    txs: Seq<BudgetTransaction>,
    stored: Map<u128, TransactionRow>,
) -> Seq<TransactionRowView>
    decreases txs.len(),
{
    if txs.len() == 0 {
        Seq::empty()
    } else {
        let before = changed_rows(budget_id, txs.drop_last(), stored);
        let t = txs.last();
        if stored.contains_key(t.id) && stored[t.id]@ == row_of(budget_id, t) {
            before
        } else {
            before.push(row_of(budget_id, t))
        }
    }
}

/// The values of rows.
pub open spec fn row_views(rows: Seq<TransactionRow>) -> Seq<TransactionRowView> {
    rows.map_values(|r: TransactionRow| r@)
}

/// The budget as its snapshot stores it: the same budget with no
/// transactions in its periods and no transaction hashes.
pub open spec fn is_slim_copy(slim: &Budget, budget: &Budget) -> bool {
    &&& slim.id == budget.id
    &&& slim.name@ == budget.name@
    &&& slim.currency == budget.currency
    &&& slim.version == budget.version
    &&& slim.last_event == budget.last_event
    &&& slim.transaction_hashes@.len() == 0
    &&& slim.items@.len() == budget.items@.len()
    &&& forall|i: int|
        0 <= i < budget.items@.len() ==> {
            &&& (#[trigger] slim.items@[i]).id == budget.items@[i].id
            &&& slim.items@[i].name@ == budget.items@[i].name@
            &&& slim.items@[i].budgeting_type == budget.items@[i].budgeting_type
            &&& slim.items@[i].tag_ids@ == budget.items@[i].tag_ids@
        }
    &&& slim.match_rules@.len() == budget.match_rules@.len()
    &&& forall|i: int|
        0 <= i < budget.match_rules@.len() ==> {
            &&& (#[trigger] slim.match_rules@[i]).id == budget.match_rules@[i].id
            &&& slim.match_rules@[i].transaction_key@ == budget.match_rules@[i].transaction_key@
            &&& slim.match_rules@[i].tag_id == budget.match_rules@[i].tag_id
            &&& slim.match_rules@[i].always_apply == budget.match_rules@[i].always_apply
        }
    &&& slim.periods@.len() == budget.periods@.len()
    &&& forall|p: int|
        0 <= p < budget.periods@.len() ==> {
            &&& (#[trigger] slim.periods@[p]).id == budget.periods@[p].id
            &&& slim.periods@[p].actual_items@ == budget.periods@[p].actual_items@
            &&& slim.periods@[p].transactions@.len() == 0
        }
}

/// A copy of a list of ids.
fn copy_ids(v: &Vec<u128>) -> (r: Vec<u128>)
    ensures
        r@ == v@,
{
    let mut r: Vec<u128> = Vec::new();
    let mut i: usize = 0;
    while i < v.len()
        invariant
            0 <= i <= v@.len(),
            r@ == v@.take(i as int),
        decreases v@.len() - i,
    {
        r.push(v[i]);
        i = i + 1;
        assert(r@ =~= v@.take(i as int));
    }
    assert(v@.take(v@.len() as int) =~= v@);
    r
}

/// A copy of a list of texts.
fn copy_texts(v: &Vec<String>) -> (r: Vec<String>)
    ensures
        r@ == v@,
{
    let mut r: Vec<String> = Vec::new();
    let mut i: usize = 0;
    while i < v.len()
        invariant
            0 <= i <= v@.len(),
            r@ == v@.take(i as int),
        decreases v@.len() - i,
    {
        r.push(v[i].clone());
        i = i + 1;
        assert(r@ =~= v@.take(i as int));
    }
    assert(v@.take(v@.len() as int) =~= v@);
    r
}

/// Whether a stored row equals the given row.
fn same_row(a: &TransactionRow, b: &TransactionRow) -> (r: bool)
    ensures
        r == (a@ == b@),
{
    a.id == b.id && a.budget_id == b.budget_id && a.account_number == b.account_number && a.amount
        == b.amount && a.balance == b.balance && a.description == b.description && a.date == b.date
        && a.tag_id == b.tag_id && a.ignored == b.ignored && a.actual_item_id == b.actual_item_id
}

/// The row of a transaction of the budget with the given id.
fn row_for(budget_id: u128, t: &BudgetTransaction) -> (r: TransactionRow)
    ensures
        r@ == row_of(budget_id, *t),
{
    TransactionRow {
        id: t.id,
        budget_id,
        account_number: t.account_number.clone(),
        amount: t.amount,
        balance: t.balance,
        description: t.description.clone(),
        date: t.date,
        tag_id: t.tag_id,
        ignored: t.ignored,
        actual_item_id: t.actual_item_id,
    }
}

/// Prepares the write of a snapshot: the budget without its transactions
/// and transaction hashes, and the rows of its transactions (period after
/// period, in order) whose stored row is missing or differs.
pub fn snapshot_plan(budget: &Budget, stored: &HashMap<u128, TransactionRow>) -> (r: (Budget, Vec<TransactionRow>))
    ensures
        is_slim_copy(&r.0, budget),
        row_views(r.1@) == changed_rows(budget.id, period_transactions(budget.periods@), stored@),
{
    let mut items: Vec<PlannedItem> = Vec::new();
    let mut i: usize = 0;
    while i < budget.items.len()
        invariant
            0 <= i <= budget.items@.len(),
            items@.len() == i,
            forall|k: int|
                0 <= k < i ==> {
                    &&& (#[trigger] items@[k]).id == budget.items@[k].id
                    &&& items@[k].name@ == budget.items@[k].name@
                    &&& items@[k].budgeting_type == budget.items@[k].budgeting_type
                    &&& items@[k].tag_ids@ == budget.items@[k].tag_ids@
                },
        decreases budget.items@.len() - i,
    {
        let it = &budget.items[i];
        items.push(
            PlannedItem {
                id: it.id,
                name: it.name.clone(),
                budgeting_type: it.budgeting_type,
                tag_ids: copy_ids(&it.tag_ids),
            },
        );
        i = i + 1;
    }
    let mut rules: Vec<MatchRule> = Vec::new();
    let mut i: usize = 0;
    while i < budget.match_rules.len()
        invariant
            0 <= i <= budget.match_rules@.len(),
            rules@.len() == i,
            forall|k: int|
                0 <= k < i ==> {
                    &&& (#[trigger] rules@[k]).id == budget.match_rules@[k].id
                    &&& rules@[k].transaction_key@ == budget.match_rules@[k].transaction_key@
                    &&& rules@[k].tag_id == budget.match_rules@[k].tag_id
                    &&& rules@[k].always_apply == budget.match_rules@[k].always_apply
                },
        decreases budget.match_rules@.len() - i,
    {
        let r = &budget.match_rules[i];
        rules.push(
            MatchRule {
                id: r.id,
                transaction_key: copy_texts(&r.transaction_key),
                tag_id: r.tag_id,
                always_apply: r.always_apply,
            },
        );
        i = i + 1;
    }
    let mut periods: Vec<Period> = Vec::new();
    let mut changed: Vec<TransactionRow> = Vec::new();
    let ghost all = budget.periods@;
    let mut p: usize = 0;
    proof {
        assert(all.take(0) =~= Seq::<Period>::empty());
        assert(row_views(changed@) =~= Seq::<TransactionRowView>::empty());
    }
    while p < budget.periods.len()
        invariant
            all == budget.periods@,
            0 <= p <= all.len(),
            periods@.len() == p,
            forall|k: int|
                0 <= k < p ==> {
                    &&& (#[trigger] periods@[k]).id == all[k].id
                    &&& periods@[k].actual_items@ == all[k].actual_items@
                    &&& periods@[k].transactions@.len() == 0
                },
            row_views(changed@) == changed_rows(budget.id, period_transactions(all.take(p as int)), stored@),
        decreases all.len() - p,
    {
        let period = &budget.periods[p];
        let ghost base = period_transactions(all.take(p as int));
        proof {
            assert(all.take(p as int + 1).drop_last() =~= all.take(p as int));
            assert(all.take(p as int + 1).last() == all[p as int]);
        }
        let mut j: usize = 0;
        proof {
            assert(base + period.transactions@.take(0) =~= base);
        }
        while j < period.transactions.len()
            invariant
                period == budget.periods@[p as int],
                0 <= j <= period.transactions@.len(),
                row_views(changed@) == changed_rows(
                    budget.id,
                    base + period.transactions@.take(j as int),
                    stored@,
                ),
            decreases period.transactions@.len() - j,
        {
            let t = &period.transactions[j];
            let ghost before = changed@;
            proof {
                assert((base + period.transactions@.take(j as int + 1)).drop_last() =~= base
                    + period.transactions@.take(j as int));
                assert((base + period.transactions@.take(j as int + 1)).last() == *t);
            }
            let row = row_for(budget.id, t);
            let unchanged = match stored.get(&t.id) {
                Some(old) => same_row(old, &row),
                None => false,
            };
            if !unchanged {
                changed.push(row);
                proof {
                    assert(row_views(changed@) =~= row_views(before).push(row_of(budget.id, *t)));
                }
            }
            j = j + 1;
        }
        proof {
            assert(period.transactions@.take(period.transactions@.len() as int) =~= period.transactions@);
        }
        let mut actual_items = Vec::new();
        let mut a: usize = 0;
        while a < period.actual_items.len()
            invariant
                0 <= a <= period.actual_items@.len(),
                actual_items@ == period.actual_items@.take(a as int),
            decreases period.actual_items@.len() - a,
        {
            actual_items.push(period.actual_items[a]);
            a = a + 1;
            assert(actual_items@ =~= period.actual_items@.take(a as int));
        }
        assert(period.actual_items@.take(period.actual_items@.len() as int) =~= period.actual_items@);
        periods.push(Period { id: period.id, transactions: Vec::new(), actual_items });
        p = p + 1;
    }
    proof {
        assert(all.take(all.len() as int) =~= all);
    }
    let slim = Budget {
        id: budget.id,
        name: budget.name.clone(),
        currency: budget.currency,
        items,
        periods,
        match_rules: rules,
        transaction_hashes: Vec::new(),
        version: budget.version,
        last_event: budget.last_event,
    };
    (slim, changed)
}

/// The written row is the transaction's own: the same id, account number,
/// amounts, description, date, tag, ignored flag and actual item, under the
/// budget's id.
pub open spec fn row_carries(r: TransactionRowView, budget_id: u128, t: BudgetTransaction) -> bool {
    &&& r.id == t.id
    &&& r.budget_id == budget_id
    &&& r.account_number == t.account_number@
    &&& r.amount == t.amount
    &&& r.balance == t.balance
    &&& r.description == t.description@
    &&& r.date == t.date
    &&& r.tag_id == t.tag_id
    &&& r.ignored == t.ignored
    &&& r.actual_item_id == t.actual_item_id
}

/// Law: every row a snapshot writes is the row of one of the budget's
/// transactions, carrying that transaction's own fields, and every
/// transaction without a stored row is written.
pub proof fn law_written_rows_carry_their_transactions(
    budget_id: u128,
    txs: Seq<BudgetTransaction>,
    stored: Map<u128, TransactionRow>,
)
    ensures
        forall|j: int|
            0 <= j < changed_rows(budget_id, txs, stored).len() ==> exists|k: int|
                0 <= k < txs.len() && row_carries(
                    #[trigger] changed_rows(budget_id, txs, stored)[j],
                    budget_id,
                    txs[k],
                ),
        forall|k: int|
            0 <= k < txs.len() && !stored.contains_key(#[trigger] txs[k].id) ==> exists|j: int|
                0 <= j < changed_rows(budget_id, txs, stored).len() && row_carries(
                    changed_rows(budget_id, txs, stored)[j],
                    budget_id,
                    txs[k],
                ),
    decreases txs.len(),
{
    if txs.len() > 0 {
        let rest = txs.drop_last();
        law_written_rows_carry_their_transactions(budget_id, rest, stored);
        let before = changed_rows(budget_id, rest, stored);
        let now = changed_rows(budget_id, txs, stored);
        assert forall|j: int| 0 <= j < now.len() implies exists|k: int|
            0 <= k < txs.len() && row_carries(#[trigger] now[j], budget_id, txs[k]) by {
            if j < before.len() {
                assert(now[j] == before[j]);
                let k = choose|k: int| 0 <= k < rest.len() && row_carries(before[j], budget_id, rest[k]);
                assert(txs[k] == rest[k]);
            } else {
                assert(row_carries(now[j], budget_id, txs[txs.len() - 1]));
            }
        }
        assert forall|k: int| 0 <= k < txs.len() && !stored.contains_key(#[trigger] txs[k].id) implies exists|j: int|
            0 <= j < now.len() && row_carries(now[j], budget_id, txs[k]) by {
            if k < txs.len() - 1 {
                assert(txs[k] == rest[k]);
                let j = choose|j: int| 0 <= j < before.len() && row_carries(before[j], budget_id, rest[k]);
                assert(now[j] == before[j]);
            } else {
                assert(row_carries(now[now.len() - 1], budget_id, txs[k]));
            }
        }
    }
}

} // verus!
