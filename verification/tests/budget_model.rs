use rusty_budget::account::{Account, AccountCreated, AccountEvent, MoneyDeposited};
use rusty_budget::auto_budget::{
    auto_budget_plan, ActualItem, AutoBudgetStep, Budget, BudgetTransaction, MatchRule, Period,
    PeriodId, PlannedItem,
};
use rusty_budget::budget::BudgetingType;
use rusty_budget::cqrs::rebuild;
use rusty_budget::framework::CommandError;
use rusty_budget::holidays::UtcDateTime;
use rusty_budget::money::{Currency, Money};
use rusty_budget::rules::{delete_rule, BudgetEvent};
use rusty_budget::snapshot::{snapshot_plan, TransactionRow};
use std::collections::HashMap;

fn sek(c: i64) -> Money {
    Money::new_cents(c, Currency::SEK)
}

fn tx(id: u128, cents: i64, tag: Option<u128>, ignored: bool) -> BudgetTransaction {
    BudgetTransaction {
        id,
        account_number: "9159".into(),
        amount: sek(cents),
        balance: sek(0),
        description: format!("tx {id}"),
        date: UtcDateTime::from_ymd_hms(2024, 3, 5, 0, 0, 0).unwrap(),
        tag_id: tag,
        ignored,
        actual_item_id: None,
    }
}

fn march() -> PeriodId {
    PeriodId { year: 2024, month: 3 }
}

fn budget() -> Budget {
    Budget {
        id: 1,
        name: "Hem".into(),
        currency: Currency::SEK,
        items: vec![
            PlannedItem { id: 10, name: "Mat".into(), budgeting_type: BudgetingType::Expense, tag_ids: vec![100] },
            PlannedItem { id: 11, name: "Lön".into(), budgeting_type: BudgetingType::Income, tag_ids: vec![101] },
            PlannedItem { id: 12, name: "Resor".into(), budgeting_type: BudgetingType::Expense, tag_ids: vec![102] },
            PlannedItem { id: 13, name: "Spar".into(), budgeting_type: BudgetingType::Savings, tag_ids: vec![103] },
        ],
        periods: vec![Period {
            id: march(),
            transactions: vec![
                tx(1, -300, Some(100), false),
                tx(2, -200, Some(100), false),
                tx(3, -999, Some(100), true),
                tx(4, 50_000, Some(101), false),
                tx(5, -700, None, false),
                tx(6, -400, Some(103), false),
            ],
            actual_items: vec![
                ActualItem { id: 20, budget_item_id: 10, budgeted_amount: sek(0), actual_amount: sek(0) },
                ActualItem { id: 21, budget_item_id: 13, budgeted_amount: sek(100), actual_amount: sek(0) },
            ],
        }],
        match_rules: vec![
            MatchRule { id: 30, transaction_key: vec!["ica".into()], tag_id: Some(100), always_apply: true },
            MatchRule { id: 31, transaction_key: vec!["sj".into()], tag_id: None, always_apply: false },
        ],
        transaction_hashes: vec![7, 8],
        version: 3,
        last_event: 42,
    }
}

#[test]
fn auto_budgeting_sums_the_tagged_transactions_of_each_item() {
    let steps = auto_budget_plan(&budget(), march()).unwrap();
    assert_eq!(steps.len(), 2);
    // Expenses are taken positive, ignored transactions are left out.
    assert!(matches!(steps[0], AutoBudgetStep::SetBudgeted { actual_id: 20, amount } if amount == sek(500)));
    // An item without an actual item gets one.
    assert!(matches!(steps[1], AutoBudgetStep::CreateAndSet { item_id: 11, amount } if amount == sek(50_000)));
    // Item 12 has no transactions, item 13 has a budgeted amount already.
}

#[test]
fn auto_budgeting_needs_the_period() {
    let r = auto_budget_plan(&budget(), PeriodId { year: 2024, month: 4 });
    assert!(matches!(&r, Err(CommandError::NotFound(m)) if m == "Period not found"));
}

#[test]
fn deleting_a_rule_untags_what_no_other_rule_matches() {
    let mut b = budget();
    let events = delete_rule(&mut b, 30, &vec![2]).unwrap();
    assert_eq!(
        events,
        vec![BudgetEvent::RuleDeleted { rule_id: 30 }, BudgetEvent::TransactionUntagged { tx_id: 1 }]
    );
    assert_eq!(b.match_rules.len(), 1);
    assert_eq!(b.match_rules[0].id, 31);
    let t = &b.periods[0].transactions;
    assert_eq!(t[0].tag_id, None);
    assert_eq!(t[1].tag_id, Some(100)); // still matched by another rule
    assert_eq!(t[2].tag_id, Some(100)); // ignored transactions keep their tag
    assert_eq!(t[3].tag_id, Some(101));
}

#[test]
fn deleting_a_rule_without_tag_untags_nothing() {
    let mut b = budget();
    let events = delete_rule(&mut b, 31, &Vec::new()).unwrap();
    assert_eq!(events, vec![BudgetEvent::RuleDeleted { rule_id: 31 }]);
    assert_eq!(b.periods[0].transactions[0].tag_id, Some(100));
}

#[test]
fn deleting_a_missing_rule_fails() {
    let mut b = budget();
    let r = delete_rule(&mut b, 99, &Vec::new());
    assert!(matches!(&r, Err(CommandError::NotFound(m)) if m == "Rule not found"));
    assert_eq!(b.match_rules.len(), 2);
}

#[test]
fn a_snapshot_leaves_out_transactions_and_writes_only_changed_rows() {
    let b = budget();
    let mut stored: HashMap<u128, TransactionRow> = HashMap::new();
    let t1 = &b.periods[0].transactions[0];
    stored.insert(1, TransactionRow {
        id: 1,
        budget_id: 1,
        account_number: t1.account_number.clone(),
        amount: t1.amount,
        balance: t1.balance,
        description: t1.description.clone(),
        date: t1.date,
        tag_id: t1.tag_id,
        ignored: t1.ignored,
        actual_item_id: t1.actual_item_id,
    });
    let t2 = &b.periods[0].transactions[1];
    stored.insert(2, TransactionRow {
        id: 2,
        budget_id: 1,
        account_number: t2.account_number.clone(),
        amount: t2.amount,
        balance: t2.balance,
        description: t2.description.clone(),
        date: t2.date,
        tag_id: None, // differs: the transaction is tagged now
        ignored: t2.ignored,
        actual_item_id: t2.actual_item_id,
    });
    let (slim, changed) = snapshot_plan(&b, &stored);
    assert!(slim.periods[0].transactions.is_empty());
    assert!(slim.transaction_hashes.is_empty());
    assert_eq!(slim.periods[0].actual_items.len(), 2);
    assert_eq!(slim.items.len(), 4);
    assert_eq!(slim.match_rules.len(), 2);
    assert_eq!(slim.last_event, 42);
    let ids: Vec<u128> = changed.iter().map(|r| r.id).collect();
    assert_eq!(ids, vec![2, 3, 4, 5, 6]);
    assert_eq!(changed[0].tag_id, Some(100));
}

#[test]
fn rebuilding_replays_the_events_over_the_snapshot() {
    let snapshot = Account { id: 5, owner: "Ann".into(), balance: 100 };
    let events: Vec<AccountEvent> = (0..3)
        .map(|_| AccountEvent::Deposited(MoneyDeposited { id: 5, amount_cents: 10 }))
        .collect();
    let (acc, resave) = rebuild(5, Some(snapshot), &events);
    assert_eq!(acc.balance, 130);
    assert!(!resave);

    let mut many = vec![AccountEvent::Created(AccountCreated { id: 6, owner: "Bo".into() })];
    for _ in 0..10 {
        many.push(AccountEvent::Deposited(MoneyDeposited { id: 6, amount_cents: 1 }));
    }
    let (acc, resave) = rebuild::<Account, AccountEvent>(6, None, &many);
    assert_eq!(acc.owner, "Bo");
    assert_eq!(acc.balance, 10);
    assert!(resave);
}
