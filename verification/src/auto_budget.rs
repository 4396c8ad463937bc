//! The budget periods of a budget and their automatic budgeting: for a
//! period, every budget item is given, as its budgeted amount, what its
//! tagged transactions of the period add up to.

use crate::budget::BudgetingType;
use crate::framework::{CommandError, CommandErrorView};
use crate::holidays::UtcDateTime;
use crate::money::{lemma_spec_new_parts, Currency, Money};
use vstd::prelude::*;

verus! {

/// A budget period: a month of a year.
#[derive(Debug, Clone, Copy, PartialEq, Eq, Structural)]
pub struct PeriodId {
    pub year: i32,
    pub month: u32,
}

/// A bank transaction as a budget period holds it.
#[derive(Debug)]
pub struct BudgetTransaction {
    pub id: u128,
    pub account_number: String,
    pub amount: Money,
    pub balance: Money,
    pub description: String,
    pub date: UtcDateTime,
    pub tag_id: Option<u128>,
    pub ignored: bool,
    pub actual_item_id: Option<u128>,
}

/// What was budgeted for, and spent on, a budget item in one period.
#[derive(Debug, Clone, Copy)]
pub struct ActualItem {
    pub id: u128,
    pub budget_item_id: u128,
    pub budgeted_amount: Money,
    pub actual_amount: Money,
}

/// A period of a budget: its transactions and its actual items.
#[derive(Debug)]
pub struct Period {
    pub id: PeriodId,
    pub transactions: Vec<BudgetTransaction>,
    pub actual_items: Vec<ActualItem>,
}

/// A budget item of the plan, with the tags whose transactions count
/// toward it.
#[derive(Debug)]
pub struct PlannedItem {
    pub id: u128,
    pub name: String,
    pub budgeting_type: BudgetingType,
    pub tag_ids: Vec<u128>,
}

/// A rule that tags the transactions whose text matches its key.
#[derive(Debug)]
pub struct MatchRule {
    pub id: u128,
    pub transaction_key: Vec<String>,
    pub tag_id: Option<u128>,
    pub always_apply: bool,
}

/// A budget: its items, its periods, its tagging rules, and the hashes of
/// the transactions it holds.
#[derive(Debug)]
pub struct Budget {
    pub id: u128,
    pub name: String,
    pub currency: Currency,
    pub items: Vec<PlannedItem>,
    pub periods: Vec<Period>,
    pub match_rules: Vec<MatchRule>,
    pub transaction_hashes: Vec<u64>,
    pub version: i64,
    pub last_event: i64,
}

/// One step of automatic budgeting.
#[derive(Debug, Clone, Copy)]
pub enum AutoBudgetStep {
    /// Set the budgeted amount of an existing actual item.
    SetBudgeted { actual_id: u128, amount: Money },
    /// Create an actual item for a budget item, then set its budgeted
    /// amount.
    CreateAndSet { item_id: u128, amount: Money },
}

/// The index of the first period with the given id.
pub open spec fn first_period(periods: Seq<Period>, id: PeriodId) -> Option<int>
    decreases periods.len(),
{
    if periods.len() == 0 {
        None
    } else {
        match first_period(periods.drop_last(), id) {
            Some(i) => Some(i),
            None => if periods.last().id == id {
                Some(periods.len() - 1)
            } else {
                None
            },
        }
    }
}

/// The index of the first actual item of the given budget item.
pub open spec fn first_actual(actuals: Seq<ActualItem>, item_id: u128) -> Option<int>
    decreases actuals.len(),
{
    if actuals.len() == 0 {
        None
    } else {
        match first_actual(actuals.drop_last(), item_id) {
            Some(i) => Some(i),
            None => if actuals.last().budget_item_id == item_id {
                Some(actuals.len() - 1)
            } else {
                None
            },
        }
    }
}

/// A transaction counts toward an item when it is not ignored and is
/// tagged with one of the item's tags.
pub open spec fn counts_toward(t: BudgetTransaction, tags: Seq<u128>) -> bool {
    !t.ignored && (t.tag_id matches Some(tag) && tags.contains(tag))
}

/// The minor units of the transactions that count toward the tags.
pub open spec fn tagged_total(txs: Seq<BudgetTransaction>, tags: Seq<u128>) -> int
    decreases txs.len(),
{
    if txs.len() == 0 {
        0
    } else {
        tagged_total(txs.drop_last(), tags) + if counts_toward(txs.last(), tags) {
            txs.last().amount.spec_cents()
        } else {
            0
        }
    }
}

/// The amount an item is budgeted: the total of its tagged transactions,
/// taken positive for expenses and savings.
pub open spec fn auto_amount(item: PlannedItem, txs: Seq<BudgetTransaction>) -> int {
    let t = tagged_total(txs, item.tag_ids@);
    if item.budgeting_type == BudgetingType::Income || t >= 0 {
        t
    } else {
        -t
    }
}

/// The step for one item: none when its amount is zero or its actual item
/// has a budgeted amount already; otherwise set the existing actual
/// item's budgeted amount, or create one and set it.
pub open spec fn auto_step(item: PlannedItem, period: Period, currency: Currency) -> Option<AutoBudgetStep> {
    let a = auto_amount(item, period.transactions@);
    if a == 0 {
        None
    } else {
        match first_actual(period.actual_items@, item.id) {
            Some(i) => if period.actual_items@[i].budgeted_amount.spec_cents() != 0 {
                None
            } else {
                Some(
                    AutoBudgetStep::SetBudgeted {
                        actual_id: period.actual_items@[i].id,
                        amount: Money::spec_new(a, currency),
                    },
                )
            },
            None => Some(AutoBudgetStep::CreateAndSet { item_id: item.id, amount: Money::spec_new(a, currency) }),
        }
    }
}

/// The steps for the items, in item order.
pub open spec fn auto_steps(items: Seq<PlannedItem>, period: Period, currency: Currency) -> Seq<AutoBudgetStep>
    decreases items.len(),
{
    if items.len() == 0 {
        Seq::empty()
    } else {
        let before = auto_steps(items.drop_last(), period, currency);
        match auto_step(items.last(), period, currency) {
            Some(s) => before.push(s),
            None => before,
        }
    }
}

/// The totals of every item over every period with the given id fit an
/// amount (so that taking them positive does not overflow).
pub open spec fn auto_totals_fit(budget: &Budget, period_id: PeriodId) -> bool {
    forall|p: int, i: int|
        0 <= p < budget.periods@.len() && budget.periods@[p].id == period_id && 0 <= i
            < budget.items@.len() ==> -i64::MAX <= #[trigger] tagged_total(
            budget.periods@[p].transactions@,
            budget.items@[i].tag_ids@,
        ) <= i64::MAX
}

/// Whether `tag` is among `tags`.
fn has_tag(tags: &Vec<u128>, tag: u128) -> (b: bool)
    ensures
        b == tags@.contains(tag),
{
    let mut i: usize = 0;
    while i < tags.len()
        invariant
            0 <= i <= tags@.len(),
            forall|k: int| 0 <= k < i ==> tags@[k] != tag,
        decreases tags@.len() - i,
    {
        if tags[i] == tag {
            return true;
        }
        i = i + 1;
    }
    false
}

/// The total of the transactions that count toward the tags.
fn total_for_tags(txs: &Vec<BudgetTransaction>, tags: &Vec<u128>) -> (r: i128)
    ensures
        r == tagged_total(txs@, tags@),
{
    let mut total: i128 = 0;
    let mut i: usize = 0;
    while i < txs.len()
        invariant
            0 <= i <= txs@.len(),
            total == tagged_total(txs@.take(i as int), tags@),
            -(i * 0x8000_0000_0000_0000) <= total <= i * 0x8000_0000_0000_0000,
        decreases txs@.len() - i,
    {
        proof {
            assert(txs@.take(i as int + 1).drop_last() =~= txs@.take(i as int));
            assert(txs@.take(i as int + 1).last() == txs@[i as int]);
        }
        let t = &txs[i];
        let counts = !t.ignored && match t.tag_id {
            Some(tag) => has_tag(tags, tag),
            None => false,
        };
        if counts {
            total = total + t.amount.amount_in_cents() as i128;
        }
        i = i + 1;
    }
    proof {
        assert(txs@.take(txs@.len() as int) =~= txs@);
    }
    total
}

/// The first actual item of a budget item in a period.
fn find_actual(actuals: &Vec<ActualItem>, item_id: u128) -> (r: Option<usize>)
    ensures
        match r {
            Some(i) => first_actual(actuals@, item_id) == Some(i as int),
            None => first_actual(actuals@, item_id) is None,
        },
{
    let mut i: usize = 0;
    proof {
        assert(actuals@.take(0) =~= Seq::<ActualItem>::empty());
    }
    while i < actuals.len()
        invariant
            0 <= i <= actuals@.len(),
            first_actual(actuals@.take(i as int), item_id) is None,
        decreases actuals@.len() - i,
    {
        proof {
            assert(actuals@.take(i as int + 1).drop_last() =~= actuals@.take(i as int));
        }
        if actuals[i].budget_item_id == item_id {
            proof {
                lemma_first_actual_prefix(actuals@, item_id, i as int + 1);
            }
            return Some(i);
        }
        i = i + 1;
    }
    proof {
        assert(actuals@.take(actuals@.len() as int) =~= actuals@);
    }
    None
}

/// The first actual item found in a prefix is the first one of the whole.
proof fn lemma_first_actual_prefix(actuals: Seq<ActualItem>, item_id: u128, n: int)
    requires
        0 <= n <= actuals.len(),
        first_actual(actuals.take(n), item_id) is Some,
    ensures
        first_actual(actuals, item_id) == first_actual(actuals.take(n), item_id),
    decreases actuals.len() - n,
{
    if n < actuals.len() {
        assert(actuals.take(n + 1).drop_last() =~= actuals.take(n));
        lemma_first_actual_prefix(actuals, item_id, n + 1);
    } else {
        assert(actuals.take(n) =~= actuals);
    }
}

/// The first period found in a prefix is the first one of the whole.
proof fn lemma_first_period_prefix(periods: Seq<Period>, id: PeriodId, n: int)
    requires
        0 <= n <= periods.len(),
        first_period(periods.take(n), id) is Some,
    ensures
        first_period(periods, id) == first_period(periods.take(n), id),
    decreases periods.len() - n,
{
    if n < periods.len() {
        assert(periods.take(n + 1).drop_last() =~= periods.take(n));
        lemma_first_period_prefix(periods, id, n + 1);
    } else {
        assert(periods.take(n) =~= periods);
    }
}

/// The first period found is one with that id.
proof fn lemma_first_period_has_id(periods: Seq<Period>, id: PeriodId)
    requires
        first_period(periods, id) is Some,
    ensures
        0 <= first_period(periods, id)->0 < periods.len(),
        periods[first_period(periods, id)->0].id == id,
    decreases periods.len(),
{
    if periods.len() > 0 && first_period(periods.drop_last(), id) is Some {
        lemma_first_period_has_id(periods.drop_last(), id);
    }
}

/// The first actual item found is one of that budget item.
proof fn lemma_first_actual_has_item(actuals: Seq<ActualItem>, item_id: u128)
    requires
        first_actual(actuals, item_id) is Some,
    ensures
        0 <= first_actual(actuals, item_id)->0 < actuals.len(),
        actuals[first_actual(actuals, item_id)->0].budget_item_id == item_id,
    decreases actuals.len(),
{
    if actuals.len() > 0 && first_actual(actuals.drop_last(), item_id) is Some {
        lemma_first_actual_has_item(actuals.drop_last(), item_id);
    }
}

/// The index of the first period with the given id.
fn find_period(periods: &Vec<Period>, id: PeriodId) -> (r: Option<usize>)
    ensures
        match r {
            Some(i) => first_period(periods@, id) == Some(i as int),
            None => first_period(periods@, id) is None,
        },
{
    let mut i: usize = 0;
    proof {
        assert(periods@.take(0) =~= Seq::<Period>::empty());
    }
    while i < periods.len()
        invariant
            0 <= i <= periods@.len(),
            first_period(periods@.take(i as int), id) is None,
        decreases periods@.len() - i,
    {
        proof {
            assert(periods@.take(i as int + 1).drop_last() =~= periods@.take(i as int));
        }
        if periods[i].id == id {
            proof {
                lemma_first_period_prefix(periods@, id, i as int + 1);
            }
            return Some(i);
        }
        i = i + 1;
    }
    proof {
        assert(periods@.take(periods@.len() as int) =~= periods@);
    }
    None
}

/// Decides the automatic budgeting of a period: for each budget item, in
/// order, the total of the period's transactions that are not ignored and
/// carry one of the item's tags (taken positive for expenses and savings),
/// in the budget's currency. Items whose total is zero are skipped. An
/// item with an actual item in the period has that actual item's budgeted
/// amount set, unless it has one already; an item without one has an
/// actual item created and set. Fails when the budget has no such period.
pub fn auto_budget_plan(budget: &Budget, period_id: PeriodId) -> (r: Result<Vec<AutoBudgetStep>, CommandError>)
    requires
        auto_totals_fit(budget, period_id),
    ensures
        match r {
            Ok(steps) => first_period(budget.periods@, period_id) matches Some(p) && steps@ == auto_steps(
                budget.items@,
                budget.periods@[p],
                budget.currency,
            ),
            Err(e) => first_period(budget.periods@, period_id) is None && e@ == CommandErrorView::NotFound(
                "Period not found"@,
            ),
        },
{
    let p = match find_period(&budget.periods, period_id) {
        Some(p) => p,
        None => {
            return Err(CommandError::NotFound("Period not found".to_owned()));
        },
    };
    proof {
        lemma_first_period_has_id(budget.periods@, period_id);
    }
    let period = &budget.periods[p];
    let ghost items = budget.items@;
    let mut steps: Vec<AutoBudgetStep> = Vec::new();
    let mut i: usize = 0;
    proof {
        assert(items.take(0) =~= Seq::<PlannedItem>::empty());
    }
    while i < budget.items.len()
        invariant
            items == budget.items@,
            0 <= i <= items.len(),
            0 <= p < budget.periods@.len(),
            period == budget.periods@[p as int],
            period.id == period_id,
            auto_totals_fit(budget, period_id),
            steps@ == auto_steps(items.take(i as int), *period, budget.currency),
        decreases items.len() - i,
    {
        proof {
            assert(items.take(i as int + 1).drop_last() =~= items.take(i as int));
            assert(items.take(i as int + 1).last() == items[i as int]);
        }
        let item = &budget.items[i];
        let total = total_for_tags(&period.transactions, &item.tag_ids);
        proof {
            assert(-i64::MAX <= tagged_total(budget.periods@[p as int].transactions@, budget.items@[i as int].tag_ids@) <= i64::MAX);
        }
        let amount: i64 = if item.budgeting_type == BudgetingType::Income || total >= 0 {
            total as i64
        } else {
            (-total) as i64
        };
        if amount != 0 {
            match find_actual(&period.actual_items, item.id) {
                Some(a) => {
                    proof {
                        lemma_first_actual_has_item(period.actual_items@, item.id);
                    }
                    if period.actual_items[a].budgeted_amount.amount_in_cents() == 0 {
                        steps.push(
                            AutoBudgetStep::SetBudgeted {
                                actual_id: period.actual_items[a].id,
                                amount: Money::new_cents(amount, budget.currency),
                            },
                        );
                    }
                },
                None => {
                    steps.push(
                        AutoBudgetStep::CreateAndSet {
                            item_id: item.id,
                            amount: Money::new_cents(amount, budget.currency),
                        },
                    );
                },
            }
        }
        i = i + 1;
    }
    proof {
        assert(items.take(items.len() as int) =~= items);
    }
    Ok(steps)
}

/// The amount a step budgets.
pub open spec fn step_amount(s: AutoBudgetStep) -> Money {
    match s {
        AutoBudgetStep::SetBudgeted { amount, .. } => amount,
        AutoBudgetStep::CreateAndSet { amount, .. } => amount,
    }
}

/// Law: the step of an item budgets, in the budget's currency, the total
/// of the item's tagged, non-ignored transactions of the period: for an
/// expense or a saving its absolute value (never negative), for an income
/// the total as it is; an item whose total is zero gets no step.
pub proof fn law_step_budgets_the_tagged_total(item: PlannedItem, period: Period, currency: Currency)
    requires
        -i64::MAX <= tagged_total(period.transactions@, item.tag_ids@) <= i64::MAX,
    ensures
        ({
            let t = tagged_total(period.transactions@, item.tag_ids@);
            &&& t == 0 ==> auto_step(item, period, currency) is None
            &&& auto_step(item, period, currency) matches Some(s) ==> {
                &&& step_amount(s).spec_currency() == currency
                &&& (item.budgeting_type == BudgetingType::Expense || item.budgeting_type
                    == BudgetingType::Savings) ==> step_amount(s).spec_cents() >= 0 && (
                step_amount(s).spec_cents() == t || step_amount(s).spec_cents() == -t)
                &&& item.budgeting_type == BudgetingType::Income ==> step_amount(s).spec_cents() == t
            }
        }),
{
    lemma_spec_new_parts(auto_amount(item, period.transactions@), currency);
}

/// Law: the amount of a step for an item is never zero, and a step of an
/// item with an actual item in the period sets that very actual item.
pub proof fn law_step_targets(item: PlannedItem, period: Period, currency: Currency)
    requires
        -i64::MAX <= tagged_total(period.transactions@, item.tag_ids@) <= i64::MAX,
    ensures
        auto_step(item, period, currency) matches Some(s) ==> {
            &&& step_amount(s).spec_cents() != 0
            &&& match s {
                AutoBudgetStep::SetBudgeted { actual_id, .. } => exists|i: int|
                    0 <= i < period.actual_items@.len() && (#[trigger] period.actual_items@[i]).id
                        == actual_id && period.actual_items@[i].budget_item_id == item.id
                        && period.actual_items@[i].budgeted_amount.spec_cents() == 0,
                AutoBudgetStep::CreateAndSet { item_id, .. } => item_id == item.id && forall|i: int|
                    0 <= i < period.actual_items@.len() ==> (#[trigger] period.actual_items@[i]).budget_item_id
                        != item.id,
            }
        },
{
    lemma_spec_new_parts(auto_amount(item, period.transactions@), currency);
    if let Some(i) = first_actual(period.actual_items@, item.id) {
        lemma_first_actual_has_item(period.actual_items@, item.id);
    } else {
        lemma_no_actual(period.actual_items@, item.id);
    }
}

/// No actual item is found exactly when none is of the budget item.
proof fn lemma_no_actual(actuals: Seq<ActualItem>, item_id: u128)
    requires
        first_actual(actuals, item_id) is None,
    ensures
        forall|i: int| 0 <= i < actuals.len() ==> (#[trigger] actuals[i]).budget_item_id != item_id,
    decreases actuals.len(),
{
    if actuals.len() > 0 {
        lemma_no_actual(actuals.drop_last(), item_id);
        assert forall|i: int| 0 <= i < actuals.len() implies (#[trigger] actuals[i]).budget_item_id != item_id by {
            if i < actuals.len() - 1 {
                assert(actuals[i] == actuals.drop_last()[i]);
            }
        }
    }
}

} // verus!
