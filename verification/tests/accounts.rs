use rusty_budget::accounts::{normalize_account_number, normalize_account_numbers, TransferRule};
use rusty_budget::budget::{BankAccount, BankTransaction};
use rusty_budget::holidays::UtcDateTime;
use rusty_budget::money::{Currency, Money};

fn account(id: u128, number: &str) -> BankAccount {
    BankAccount {
        id,
        account_number: number.to_string(),
        description: format!("account {id}"),
        currency: "SEK".to_string(),
        balance: Money::new_cents(id as i64, Currency::SEK),
    }
}

fn tx(id: u128, number: &str) -> BankTransaction {
    BankTransaction::new(
        id,
        number,
        Money::new_cents(-100, Currency::SEK),
        Money::new_cents(0, Currency::SEK),
        "t",
        UtcDateTime::from_ymd_hms(2024, 1, 1, 0, 0, 0).unwrap(),
    )
}

fn rule(id: u128, out: &str, inc: &str) -> TransferRule {
    TransferRule {
        id,
        outgoing_account: out.to_string(),
        incoming_account: inc.to_string(),
        outgoing_key: vec!["överföring".to_string()],
        incoming_key: Vec::new(),
        tag_id: Some(9),
    }
}

#[test]
fn account_numbers_normalize_to_their_digits() {
    assert_eq!(normalize_account_number("9159-482.485-3"), "91594824853");
    assert_eq!(normalize_account_number("91594824853"), "91594824853");
    assert_eq!(normalize_account_number("abc"), "");
}

#[test]
fn duplicate_accounts_merge_into_the_lowest_id() {
    let mut accounts = vec![account(5, "9159-482.485-3"), account(2, "91594824853"), account(8, "1234")];
    let mut transactions = vec![tx(1, "9159-482.485-3"), tx(2, "91594824853"), tx(3, "12-34")];
    let mut rules = vec![rule(1, "9159-482.485-3", "1234"), rule(2, "5555", "9159-482.485-3")];

    assert!(normalize_account_numbers(&mut accounts, &mut transactions, &mut rules));

    let numbers: Vec<(u128, String)> = accounts.iter().map(|a| (a.id, a.account_number.clone())).collect();
    assert_eq!(numbers, vec![(2, "91594824853".to_string()), (8, "1234".to_string())]);
    assert_eq!(accounts[0].description, "account 2");

    let tx_numbers: Vec<&str> = transactions.iter().map(|t| t.account_number.as_str()).collect();
    // "12-34" is no account's number, so it is left as it is.
    assert_eq!(tx_numbers, vec!["91594824853", "91594824853", "12-34"]);

    assert_eq!(rules[0].outgoing_account, "91594824853");
    assert_eq!(rules[0].incoming_account, "1234");
    assert_eq!(rules[1].outgoing_account, "5555");
    assert_eq!(rules[1].incoming_account, "91594824853");
    assert_eq!(rules[1].tag_id, Some(9));
}

#[test]
fn normalized_accounts_are_left_alone() {
    let mut accounts = vec![account(1, "123"), account(2, "456")];
    let mut transactions = vec![tx(1, "12-3")];
    let mut rules = vec![rule(1, "1-23", "456")];
    assert!(!normalize_account_numbers(&mut accounts, &mut transactions, &mut rules));
    assert_eq!(accounts, vec![account(1, "123"), account(2, "456")]);
    assert_eq!(transactions[0].account_number, "12-3");
    assert_eq!(rules[0].outgoing_account, "1-23");
}

#[test]
fn merging_twice_changes_nothing_the_second_time() {
    let mut accounts = vec![account(3, "9159-1"), account(4, "91-591"), account(1, "7.7")];
    let mut transactions = Vec::new();
    let mut rules = Vec::new();
    assert!(normalize_account_numbers(&mut accounts, &mut transactions, &mut rules));
    assert_eq!(accounts.len(), 2);
    assert_eq!(accounts[0].account_number, "91591");
    assert_eq!(accounts[1].account_number, "77");
    let once = accounts.clone();
    assert!(!normalize_account_numbers(&mut accounts, &mut transactions, &mut rules));
    assert_eq!(accounts, once);
}
