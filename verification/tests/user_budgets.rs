use rusty_budget::user_budgets::{add_budget_to_list, default_budget_id};

#[test]
fn a_first_budget_starts_the_list() {
    assert_eq!(add_budget_to_list(None, 7, true), vec![(7, true)]);
    assert_eq!(add_budget_to_list(None, 7, false), vec![(7, false)]);
}

#[test]
fn a_new_default_clears_the_other_defaults() {
    let list = vec![(1, true), (2, false)];
    let r = add_budget_to_list(Some(list), 3, true);
    assert_eq!(r, vec![(1, false), (2, false), (3, true)]);
    assert_eq!(default_budget_id(&r), Some(3));
}

#[test]
fn adding_a_non_default_keeps_the_default() {
    let list = vec![(1, true), (2, false)];
    let r = add_budget_to_list(Some(list), 3, false);
    assert_eq!(r, vec![(1, true), (2, false), (3, false)]);
    assert_eq!(default_budget_id(&r), Some(1));
}

#[test]
fn re_adding_a_budget_leaves_no_stale_entry() {
    let list = vec![(1, false), (2, true), (3, false)];
    let r = add_budget_to_list(Some(list), 2, false);
    assert_eq!(r, vec![(1, false), (3, false), (2, false)]);
    assert_eq!(default_budget_id(&r), None);

    let r = add_budget_to_list(Some(r), 1, true);
    assert_eq!(r, vec![(3, false), (2, false), (1, true)]);
    assert_eq!(r.iter().filter(|e| e.0 == 1).count(), 1);
}

#[test]
fn the_default_is_the_first_flagged_entry() {
    assert_eq!(default_budget_id(&[]), None);
    assert_eq!(default_budget_id(&[(4, false), (5, true), (6, true)]), Some(5));
    assert_eq!(default_budget_id(&[(4, false)]), None);
}
