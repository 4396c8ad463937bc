use rusty_budget::framework::CommandError;
use rusty_budget::holidays::UtcDateTime;
use rusty_budget::import::{
    build_import_commands, parse_skandia_sheet, tally_transaction_results, SheetRow,
};
use rusty_budget::ledger::Ledger;
use rusty_budget::money::{Currency, Money};

fn row(cells: &[&str], amount: Option<i64>, balance: Option<i64>) -> SheetRow {
    SheetRow {
        cells: cells.iter().map(|c| c.to_string()).collect(),
        amount_cents: amount,
        balance_cents: balance,
    }
}

fn statement() -> Vec<SheetRow> {
    vec![
        row(&["Kontonummer", "9159-482.485-3"], None, None),
        row(&["Kontonamn", "Allt i ett"], None, None),
        row(&[], None, None),
        row(&["Bokf. datum", "Beskrivning", "Belopp", "Saldo"], None, None),
        row(&["2024-01-05", "ICA Kvantum", "", ""], Some(-25_050), Some(100_000)),
        row(&["2024-01-06", "Överföring 9159-111.222-3", "", ""], Some(-10_000), Some(90_000)),
        row(&["2024-01-06", "Överföring 9159-111.222-3", "", ""], Some(-10_000), Some(90_000)),
    ]
}

fn sek(c: i64) -> Money {
    Money::new_cents(c, Currency::SEK)
}

fn date(y: i32, m: u32, d: u32) -> UtcDateTime {
    UtcDateTime::from_ymd_hms(y, m, d, 0, 0, 0).unwrap()
}

#[test]
fn an_import_opens_accounts_and_adds_new_transactions() {
    let sheet = parse_skandia_sheet(&statement()).unwrap();
    let (commands, kinds) = build_import_commands(&sheet);
    let ids: Vec<u128> = (1..=commands.len() as u128).collect();
    let mut ledger = Ledger::new();
    let results = ledger.execute_import(&commands, &ids);

    assert_eq!(results.len(), 5);
    assert!(matches!(results[0], Ok(1)));
    assert!(matches!(results[1], Ok(2)));
    assert!(matches!(results[2], Ok(3)));
    assert!(matches!(results[3], Ok(4)));
    // The same row twice: the second is a duplicate.
    assert!(matches!(&results[4], Err(CommandError::Validation(m)) if m == "Transaction already exists."));
    assert_eq!(tally_transaction_results(&kinds, &results), (2, 1, 3));

    assert_eq!(ledger.accounts.len(), 2);
    assert_eq!(ledger.accounts[0].account_number, "9159-482.485-3");
    assert_eq!(ledger.accounts[0].description, "Skandiabanken");
    assert_eq!(ledger.accounts[0].balance, sek(0));
    assert_eq!(ledger.accounts[0].currency, "");
    assert_eq!(ledger.accounts[1].account_number, "91591112223");
    assert_eq!(ledger.transactions.len(), 2);
    assert!(ledger.transactions.contains(&2) && ledger.transactions.contains(&4));
}

#[test]
fn importing_the_same_statement_again_changes_nothing() {
    let sheet = parse_skandia_sheet(&statement()).unwrap();
    let (commands, kinds) = build_import_commands(&sheet);
    let mut ledger = Ledger::new();
    ledger.import_commands(&commands);
    let accounts = ledger.accounts.clone();
    let stored = ledger.transactions.len();

    let again = ledger.import_commands(&commands);
    assert!(again.iter().all(|r| r.is_err()));
    assert_eq!(tally_transaction_results(&kinds, &again), (0, 3, 3));
    assert_eq!(ledger.accounts, accounts);
    assert_eq!(ledger.transactions.len(), stored);
}

#[test]
fn an_account_number_is_opened_once() {
    let mut ledger = Ledger::new();
    assert!(matches!(ledger.create_bank_account(1, "123".into(), "a".into()), Ok(1)));
    assert!(ledger.has_account(&"123".to_string()));
    assert!(!ledger.has_account(&"124".to_string()));
    let r = ledger.create_bank_account(2, "123".into(), "b".into());
    assert!(matches!(&r, Err(CommandError::Validation(m)) if m == "Account 123 already exists"));
    assert_eq!(ledger.accounts.len(), 1);
}

#[test]
fn transactions_with_the_same_content_are_refused() {
    let mut ledger = Ledger::new();
    let d = date(2024, 2, 2);
    assert!(matches!(ledger.add_transaction(1, "1".into(), sek(5), sek(10), "x".into(), d), Ok(1)));
    let dup = ledger.add_transaction(2, "1".into(), sek(5), sek(10), "x".into(), d);
    assert!(matches!(&dup, Err(CommandError::Validation(m)) if m == "Transaction already exists."));
    // Another balance is other content.
    assert!(matches!(ledger.add_transaction(3, "1".into(), sek(5), sek(11), "x".into(), d), Ok(3)));
    assert_eq!(ledger.transactions.len(), 2);
}

#[test]
fn ensuring_an_account_opens_it_once() {
    let mut ledger = Ledger::new();
    assert_eq!(ledger.ensure_account(10, "555".into(), "Spar".into()), 10);
    assert_eq!(ledger.ensure_account(11, "555".into(), "Other".into()), 10);
    assert_eq!(ledger.accounts.len(), 1);
    assert_eq!(ledger.get_account(&"555".to_string()).unwrap().description, "Spar");
    assert!(ledger.get_account(&"556".to_string()).is_none());
    assert_eq!(ledger.ensure_account(12, "556".into(), "Lön".into()), 12);
    assert_eq!(ledger.accounts.len(), 2);
}
