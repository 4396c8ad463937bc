use rusty_budget::money::{Currency, Money};
use std::cmp::Ordering;

#[test]
fn amounts_are_held_in_minor_units() {
    let m = Money::new_dollars(12, Currency::SEK);
    assert_eq!(m.amount_in_cents(), 1200);
    assert_eq!(m.amount_in_dollars(), 12);
    assert_eq!(m.currency(), Currency::SEK);

    let c = Money::new_cents(1234, Currency::EUR);
    assert_eq!(c.amount_in_cents(), 1234);
    assert_eq!(c.amount_in_dollars(), 12);
    assert_eq!(c.currency(), Currency::EUR);
}

#[test]
fn whole_units_truncate_toward_zero() {
    assert_eq!(Money::new_cents(-150, Currency::SEK).amount_in_dollars(), -1);
    assert_eq!(Money::new_cents(199, Currency::SEK).amount_in_dollars(), 1);
    assert_eq!(Money::new_cents(-99, Currency::SEK).amount_in_dollars(), 0);
}

#[test]
fn equal_amounts_need_the_same_currency() {
    assert_eq!(Money::new_cents(100, Currency::SEK), Money::new_dollars(1, Currency::SEK));
    assert_ne!(Money::new_cents(100, Currency::SEK), Money::new_cents(100, Currency::EUR));
}

#[test]
fn amounts_of_one_currency_are_ordered() {
    let a = Money::new_cents(100, Currency::SEK);
    let b = Money::new_cents(250, Currency::SEK);
    assert_eq!(a.partial_cmp(&b), Some(Ordering::Less));
    assert_eq!(b.partial_cmp(&a), Some(Ordering::Greater));
    assert_eq!(a.partial_cmp(&a), Some(Ordering::Equal));
    assert!(a < b);
    assert!(b >= a);
}

#[test]
fn amounts_of_different_currencies_are_unordered() {
    let a = Money::new_cents(100, Currency::SEK);
    let b = Money::new_cents(100, Currency::USD);
    assert_eq!(a.partial_cmp(&b), None);
    assert!(!(a < b) && !(a > b) && !(a <= b));
}

#[test]
fn arithmetic_adds_and_subtracts_minor_units() {
    let a = Money::new_cents(150, Currency::SEK);
    let b = Money::new_cents(50, Currency::SEK);
    assert_eq!((a + b).amount_in_cents(), 200);
    assert_eq!((a - b).amount_in_cents(), 100);
    assert_eq!((a * b).amount_in_cents(), 750_000);
    assert_eq!((a + b).currency(), Currency::SEK);
    assert_eq!(a + b, b + a);
    assert_eq!((a + b) - b, a);
    assert_eq!(a - a, Money::new_cents(0, Currency::SEK));
    assert_eq!(a + Money::new_cents(0, Currency::SEK), a);
    assert_eq!(Money::new_cents(1, Currency::EUR) + Money::new_cents(2, Currency::EUR), Money::new_cents(3, Currency::EUR));
    assert_eq!(Money::new_cents(5, Currency::EUR) - Money::new_cents(2, Currency::EUR), Money::new_cents(3, Currency::EUR));
}

#[test]
fn an_amount_is_rebuilt_from_its_parts() {
    for m in [Money::new_cents(-7, Currency::USD), Money::new_dollars(3, Currency::SEK)] {
        assert_eq!(Money::new_cents(m.amount_in_cents(), m.currency()), m);
    }
}

#[test]
fn currencies_display_their_symbol() {
    assert_eq!(Currency::EUR.display_string(), "€");
    assert_eq!(Currency::USD.display_string(), "$");
    assert_eq!(Currency::SEK.display_string(), "kr");
}

#[test]
fn kronor_display_with_a_colon() {
    assert_eq!(Money::new_cents(1205, Currency::SEK).to_display_string(), "12:05 kr");
    assert_eq!(Money::new_cents(5, Currency::SEK).to_display_string(), "0:05 kr");
    assert_eq!(Money::new_cents(123_456_789, Currency::SEK).to_display_string(), "1234567:89 kr");
    assert_eq!(Money::new_cents(-150, Currency::SEK).to_display_string(), "-1:-50 kr");
    assert_eq!(Money::new_cents(-5, Currency::SEK).to_display_string(), "0:-5 kr");
}

#[test]
fn other_currencies_display_symbol_first() {
    assert_eq!(Money::new_cents(1205, Currency::EUR).to_display_string(), " €12.05");
    assert_eq!(Money::new_cents(99, Currency::USD).to_display_string(), " $0.99");
    assert_eq!(Money::new_cents(-1000, Currency::USD).to_display_string(), " $-10.00");
}

#[test]
fn display_matches_the_format_of_the_integers() {
    for cents in [i64::MIN, i64::MAX, -101, -100, -1, 0, 1, 9, 10, 100, 101, 987_654_321] {
        let sek = Money::new_cents(cents, Currency::SEK).to_display_string();
        assert_eq!(sek, format!("{}:{:02} kr", cents / 100, cents % 100));
        let eur = Money::new_cents(cents, Currency::EUR).to_display_string();
        assert_eq!(eur, format!(" €{}.{:02}", cents / 100, cents % 100));
    }
}
