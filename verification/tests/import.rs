use rusty_budget::framework::CommandError;
use rusty_budget::holidays::UtcDateTime;
use rusty_budget::import::{
    build_import_commands, extract_transfer_account_number, parse_skandia_sheet,
    parse_skandia_sheet_checked, tally_transaction_results, ImportCommand, ImportError,
    ParsedSkandiaSheet, RowCommandKind, SheetRow,
};
use rusty_budget::money::{Currency, Money};

fn row(cells: &[&str], amount: Option<i64>, balance: Option<i64>) -> SheetRow {
    SheetRow {
        cells: cells.iter().map(|c| c.to_string()).collect(),
        amount_cents: amount,
        balance_cents: balance,
    }
}

fn header() -> Vec<SheetRow> {
    vec![
        row(&["Kontonummer", "9159-482.485-3"], None, None),
        row(&["Kontonamn", "Allt i ett"], None, None),
        row(&[], None, None),
        row(&["Bokf. datum", "Beskrivning", "Belopp", "Saldo"], None, None),
    ]
}

fn sample_sheet() -> Vec<SheetRow> {
    let mut rows = header();
    rows.push(row(&["2024-01-05", "ICA Kvantum", "", ""], Some(-25_050), Some(100_000)));
    rows.push(row(&["2024-01-06", "Överföring 9159-111.222-3", "", ""], Some(-10_000), Some(90_000)));
    rows.push(row(&["note"], None, None));
    rows.push(row(&["2024-01-07", " Överföring 9159-111.222-3 ", "", ""], Some(5_000), Some(95_000)));
    rows
}

#[test]
fn transfer_descriptions_yield_the_counterpart_number() {
    assert_eq!(
        extract_transfer_account_number("Överföring 9159-482.485-3"),
        Some("91594824853".to_string())
    );
    assert_eq!(
        extract_transfer_account_number("  Överföring 915 12 34\t"),
        Some("9151234".to_string())
    );
    assert_eq!(extract_transfer_account_number("Överföring 8327-9,123"), None);
    assert_eq!(extract_transfer_account_number("Överföring"), None);
    assert_eq!(extract_transfer_account_number("Swish 9159-482.485-3"), None);
    assert_eq!(extract_transfer_account_number("Överföring abc"), None);
    assert_eq!(extract_transfer_account_number(""), None);
}

#[test]
fn statement_rows_are_parsed_in_order() {
    let sheet = parse_skandia_sheet(&sample_sheet()).unwrap();
    assert_eq!(sheet.primary_account_number.as_deref(), Some("9159-482.485-3"));
    assert_eq!(sheet.rows.len(), 3);

    let first = &sheet.rows[0];
    assert_eq!(first.account_number, "9159-482.485-3");
    assert_eq!(first.description, "ICA Kvantum");
    assert_eq!(first.counterpart_account_number, None);
    assert_eq!(first.amount, Money::new_cents(-25_050, Currency::SEK));
    assert_eq!(first.balance, Money::new_cents(100_000, Currency::SEK));
    assert_eq!(first.date, UtcDateTime::from_ymd_hms(2024, 1, 5, 0, 0, 0).unwrap());

    assert_eq!(sheet.rows[1].counterpart_account_number.as_deref(), Some("91591112223"));
    assert_eq!(sheet.rows[2].counterpart_account_number.as_deref(), Some("91591112223"));
    assert_eq!(sheet.rows[2].amount.amount_in_cents(), 5_000);
}

#[test]
fn an_empty_sheet_has_no_account() {
    let sheet = parse_skandia_sheet(&Vec::new()).unwrap();
    assert!(sheet.primary_account_number.is_none());
    assert!(sheet.rows.is_empty());
}

#[test]
fn header_rows_are_never_transactions() {
    let rows = vec![
        row(&["Kontonummer", "1"], None, None),
        row(&["2024-01-01", "x", "", ""], Some(1), Some(1)),
        row(&["2024-01-01", "x", "", ""], Some(1), Some(1)),
        row(&["2024-01-01", "x", "", ""], Some(1), Some(1)),
    ];
    let sheet = parse_skandia_sheet(&rows).unwrap();
    assert!(sheet.rows.is_empty());
}

#[test]
fn a_date_that_does_not_parse_fails_the_sheet() {
    let mut rows = header();
    rows.push(row(&["2024-01-05", "ok", "", ""], Some(1), Some(1)));
    rows.push(row(&["5 jan 2024", "bad", "", ""], Some(1), Some(1)));
    assert!(matches!(parse_skandia_sheet(&rows), Err(ImportError::ParseError(_))));

    let mut rows = header();
    rows.push(row(&["2023-02-29", "no such day", "", ""], Some(1), Some(1)));
    assert!(matches!(parse_skandia_sheet(&rows), Err(ImportError::ParseError(_))));
}

#[test]
fn checked_reading_refuses_rows_without_numbers() {
    let mut rows = header();
    rows.push(row(&["2024-01-05", "no amount", "", ""], None, Some(1)));
    assert!(parse_skandia_sheet_checked(&rows).is_none());

    let short_first = vec![row(&["Kontonummer"], None, None)];
    assert!(parse_skandia_sheet_checked(&short_first).is_none());

    // A bad date before the row without numbers ends reading first.
    let mut rows = header();
    rows.push(row(&["bad", "x", "", ""], Some(1), Some(1)));
    rows.push(row(&["2024-01-05", "no amount", "", ""], None, None));
    assert!(matches!(
        parse_skandia_sheet_checked(&rows),
        Some(Err(ImportError::ParseError(_)))
    ));

    let ok = parse_skandia_sheet_checked(&sample_sheet()).unwrap().unwrap();
    assert_eq!(ok.rows.len(), 3);
}

fn account_numbers_created(commands: &[ImportCommand]) -> Vec<String> {
    commands
        .iter()
        .filter_map(|c| match c {
            ImportCommand::CreateBankAccount { account_number, description } => {
                assert_eq!(description, "Skandiabanken");
                Some(account_number.clone())
            }
            ImportCommand::AddTransaction { .. } => None,
        })
        .collect()
}

#[test]
fn import_plan_creates_each_account_once_and_every_transaction() {
    let sheet = parse_skandia_sheet(&sample_sheet()).unwrap();
    let (commands, kinds) = build_import_commands(&sheet);
    assert_eq!(commands.len(), 5);
    assert_eq!(
        kinds,
        vec![
            RowCommandKind::Account,
            RowCommandKind::Transaction,
            RowCommandKind::Account,
            RowCommandKind::Transaction,
            RowCommandKind::Transaction,
        ]
    );
    assert_eq!(
        account_numbers_created(&commands),
        vec!["9159-482.485-3".to_string(), "91591112223".to_string()]
    );
    match &commands[1] {
        ImportCommand::AddTransaction { account_number, amount, description, date, .. } => {
            assert_eq!(account_number, "9159-482.485-3");
            assert_eq!(amount.amount_in_cents(), -25_050);
            assert_eq!(description, "ICA Kvantum");
            assert_eq!(date.day, 5);
        }
        other => panic!("unexpected command {other:?}"),
    }
}

#[test]
fn a_sheet_without_account_plans_only_its_rows() {
    let sheet = ParsedSkandiaSheet { primary_account_number: None, rows: Vec::new() };
    let (commands, kinds) = build_import_commands(&sheet);
    assert!(commands.is_empty());
    assert!(kinds.is_empty());
}

#[test]
fn the_tally_counts_only_transactions() {
    let kinds = vec![
        RowCommandKind::Account,
        RowCommandKind::Transaction,
        RowCommandKind::Transaction,
        RowCommandKind::Account,
        RowCommandKind::Transaction,
    ];
    let results: Vec<Result<u128, CommandError>> = vec![
        Err(CommandError::Conflict("exists".into())),
        Ok(1),
        Err(CommandError::Validation("duplicate".into())),
        Ok(2),
        Ok(3),
    ];
    assert_eq!(tally_transaction_results(&kinds, &results), (2, 1, 3));
    // Only pairs that have both a kind and a result are counted.
    assert_eq!(tally_transaction_results(&kinds, &results[..2]), (1, 0, 1));
    assert_eq!(tally_transaction_results(&kinds[..0], &results), (0, 0, 0));
}
