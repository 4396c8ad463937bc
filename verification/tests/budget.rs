use rusty_budget::budget::{
    get_transaction_hash, BankTransaction, BankTransactionStore, BudgetGroup, BudgetItem,
    BudgetItemStore, BudgetingType,
};
use rusty_budget::holidays::UtcDateTime;
use rusty_budget::money::{Currency, Money};

fn sek(cents: i64) -> Money {
    Money::new_cents(cents, Currency::SEK)
}

fn date(y: i32, m: u32, d: u32) -> UtcDateTime {
    UtcDateTime::from_ymd_hms(y, m, d, 0, 0, 0).unwrap()
}

fn item(id: u128, name: &str, t: BudgetingType) -> BudgetItem {
    BudgetItem::new(id, name, t, sek(100_00), None, None)
}

#[test]
fn budgeting_types_have_swedish_names() {
    assert_eq!(BudgetingType::Income.display_name(), "Inkomst");
    assert_eq!(BudgetingType::Expense.display_name(), "Utgift");
    assert_eq!(BudgetingType::Savings.display_name(), "Sparande");
    assert_eq!(BudgetingType::default(), BudgetingType::Income);
}

#[test]
fn new_items_and_groups_start_at_zero() {
    let i = BudgetItem::new(
        1,
        "Mat",
        BudgetingType::Expense,
        sek(5_000_00),
        Some("ICA".to_string()),
        Some(vec!["food".to_string()]),
    );
    assert_eq!(i.name, "Mat");
    assert_eq!(i.actual_spent, sek(0));
    assert_eq!(i.tags, vec!["food".to_string()]);
    assert_eq!(i.notes.as_deref(), Some("ICA"));
    assert!(item(2, "x", BudgetingType::Income).tags.is_empty());

    let g = BudgetGroup::new(3, "Hem", BudgetingType::Expense, Currency::EUR);
    assert!(g.items.is_empty());
    assert_eq!(g.budgeted_amount, Money::new_cents(0, Currency::EUR));
    assert_eq!(g.actual_spent, Money::new_cents(0, Currency::EUR));
}

#[test]
fn item_store_indexes_by_id_and_type() {
    let mut store = BudgetItemStore::new();
    assert!(store.is_empty());
    assert!(store.insert(&item(1, "Lön", BudgetingType::Income)));
    assert!(store.insert(&item(2, "Mat", BudgetingType::Expense)));
    assert!(store.insert(&item(3, "Hyra", BudgetingType::Expense)));
    assert!(!store.insert(&item(1, "Other", BudgetingType::Savings)));
    assert_eq!(store.len(), 3);
    assert_eq!(store.get(&1).unwrap().name, "Lön");
    assert!(store.contains(&3));

    assert!(store.remove(2));
    assert!(!store.remove(2));
    assert_eq!(store.len(), 2);
    assert!(!store.contains(&2));
    assert!(store.get(&2).is_none());

    store.get_mut(&3).unwrap().name = "Boende".to_string();
    assert_eq!(store.get(&3).unwrap().name, "Boende");
    assert!(store.get_mut(&99).is_none());
}

#[test]
fn transaction_store_refuses_duplicates_by_content() {
    let mut store = BankTransactionStore::new();
    let t1 = BankTransaction::new(1, "9159", sek(-100), sek(900), "ICA", date(2024, 1, 5));
    let same_content = BankTransaction::new(2, "9159", sek(-100), sek(900), "ICA", date(2024, 1, 5));
    let other = BankTransaction::new(3, "9159", sek(-100), sek(800), "ICA", date(2024, 1, 5));

    let h = t1.get_hash();
    assert_eq!(h, same_content.get_hash());
    assert_ne!(h, other.get_hash());
    assert!(store.can_insert(&h));

    assert!(store.insert(t1));
    assert!(store.check_hash(&h));
    assert!(!store.can_insert(&h));
    assert!(!store.insert(same_content));
    assert!(store.insert(other));
    assert_eq!(store.len(), 2);
    assert!(store.contains(&1));
    assert!(!store.contains(&2));

    store.get_mut(&1).unwrap().budget_item_id = Some(7);
    assert!(store.remove(1));
    assert!(!store.contains(&1));
    assert!(store.can_insert(&h));
    assert!(!store.remove(1));
    assert_eq!(store.len(), 1);
}

#[test]
fn transaction_hash_covers_every_identifying_field() {
    let d = date(2024, 1, 5);
    let base = get_transaction_hash(&sek(1), &sek(2), "a", "b", &d);
    assert_eq!(base, get_transaction_hash(&sek(1), &sek(2), "a", "b", &d));
    assert_ne!(base, get_transaction_hash(&sek(3), &sek(2), "a", "b", &d));
    assert_ne!(base, get_transaction_hash(&sek(1), &sek(3), "a", "b", &d));
    assert_ne!(base, get_transaction_hash(&sek(1), &sek(2), "c", "b", &d));
    assert_ne!(base, get_transaction_hash(&sek(1), &sek(2), "a", "c", &d));
    assert_ne!(base, get_transaction_hash(&sek(1), &sek(2), "a", "b", &date(2024, 1, 6)));
}

#[test]
fn transactions_compare_by_amount_description_and_date() {
    let a = BankTransaction::new(1, "x", sek(5), sek(10), "d", date(2024, 2, 1));
    let b = BankTransaction::new(2, "y", sek(5), sek(99), "d", date(2024, 2, 1));
    let c = BankTransaction::new(3, "x", sek(6), sek(10), "d", date(2024, 2, 1));
    assert!(a == b);
    assert!(a != c);
}

#[test]
fn item_store_is_rebuilt_from_its_entries() {
    let entries = vec![
        (1u128, item(1, "Lön", BudgetingType::Income)),
        (2u128, item(2, "Mat", BudgetingType::Expense)),
        (3u128, item(3, "Hyra", BudgetingType::Expense)),
    ];
    let store = BudgetItemStore::from_entries(&entries);
    assert_eq!(store.len(), 3);
    assert_eq!(store.get(&2).unwrap().name, "Mat");
    assert!(store.contains(&1) && store.contains(&3));

    let empty = BudgetItemStore::from_entries(&Vec::new());
    assert!(empty.is_empty());

    // A later entry for an id replaces an earlier one.
    let entries = vec![
        (1u128, item(1, "Old", BudgetingType::Income)),
        (1u128, item(1, "New", BudgetingType::Income)),
    ];
    let store = BudgetItemStore::from_entries(&entries);
    assert_eq!(store.len(), 1);
    assert_eq!(store.get(&1).unwrap().name, "New");
}

#[test]
fn removing_a_new_item_restores_the_store() {
    let mut store = BudgetItemStore::new();
    store.insert(&item(1, "Lön", BudgetingType::Income));
    assert!(store.insert(&item(2, "Mat", BudgetingType::Expense)));
    assert!(store.remove(2));
    assert_eq!(store.len(), 1);
    assert!(store.contains(&1) && !store.contains(&2));
    // The id can be used again.
    assert!(store.insert(&item(2, "Mat", BudgetingType::Expense)));
}

#[test]
fn removing_a_new_transaction_restores_the_store() {
    let mut store = BankTransactionStore::new();
    let t = BankTransaction::new(4, "1", sek(1), sek(1), "x", date(2024, 3, 1));
    let h = t.get_hash();
    assert!(store.insert(t));
    assert!(store.remove(4));
    assert!(store.is_empty());
    assert!(store.can_insert(&h));
    assert!(!store.contains(&4));
}
