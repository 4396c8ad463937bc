use rusty_budget::account::{
    Account, AccountCreated, AccountEvent, Create, CreateAccount, Deposit, DepositMoney,
    MoneyDeposited, MoneyWithdrawn, Withdraw, WithdrawMoney,
};
use rusty_budget::cqrs::{Aggregate, Command, CommandError, Event, Runtime};

fn bob_runtime() -> Runtime<Account, AccountEvent> {
    let mut rt: Runtime<Account, AccountEvent> = Runtime::new();
    rt.execute(Create(CreateAccount { id: 100, owner: "Bob".into() })).unwrap();
    rt
}

#[test]
fn compact_demo_deposit_then_withdraw() {
    let mut rt = bob_runtime();
    rt.execute(Deposit(DepositMoney { id: 100, amount_cents: 50_00 })).unwrap();
    rt.execute(Withdraw(WithdrawMoney { id: 100, amount_cents: 20_00 })).unwrap();

    let acc = rt.materialize(&100).unwrap();
    assert_eq!(acc.id, 100);
    assert_eq!(acc.owner, "Bob");
    assert_eq!(acc.balance, 30_00);
    assert_eq!(rt.events(&100).unwrap().len(), 3);
}

#[test]
fn creating_an_account_twice_is_a_conflict() {
    let mut rt = bob_runtime();
    let r = rt.execute(Create(CreateAccount { id: 100, owner: "Alice".into() }));
    assert!(matches!(r, Err(CommandError::Conflict("account already exists"))));
    assert_eq!(rt.events(&100).unwrap().len(), 1);
    assert_eq!(rt.materialize(&100).unwrap().owner, "Bob");
}

#[test]
fn blank_owner_is_refused() {
    let mut rt: Runtime<Account, AccountEvent> = Runtime::new();
    let r = rt.execute(Create(CreateAccount { id: 1, owner: " \t\n".into() }));
    assert!(matches!(r, Err(CommandError::Validation("owner must not be empty"))));
    assert!(rt.events(&1).is_none());
    assert!(rt.materialize(&1).is_none());
}

#[test]
fn money_commands_need_an_account() {
    let mut rt: Runtime<Account, AccountEvent> = Runtime::new();
    let d = rt.execute(Deposit(DepositMoney { id: 7, amount_cents: 100 }));
    assert!(matches!(d, Err(CommandError::NotFound("account does not exist"))));
    let w = rt.execute(Withdraw(WithdrawMoney { id: 7, amount_cents: 100 }));
    assert!(matches!(w, Err(CommandError::NotFound("account does not exist"))));
}

#[test]
fn amounts_must_be_positive() {
    let mut rt = bob_runtime();
    let d = rt.execute(Deposit(DepositMoney { id: 100, amount_cents: 0 }));
    assert!(matches!(d, Err(CommandError::Validation("amount must be > 0"))));
    let w = rt.execute(Withdraw(WithdrawMoney { id: 100, amount_cents: -5 }));
    assert!(matches!(w, Err(CommandError::Validation("amount must be > 0"))));
}

#[test]
fn withdrawing_more_than_the_balance_is_refused() {
    let mut rt = bob_runtime();
    rt.execute(Deposit(DepositMoney { id: 100, amount_cents: 10_00 })).unwrap();
    let w = rt.execute(Withdraw(WithdrawMoney { id: 100, amount_cents: 10_01 }));
    assert!(matches!(w, Err(CommandError::Validation("insufficient funds"))));
    assert_eq!(rt.materialize(&100).unwrap().balance, 10_00);
    // Withdrawing the whole balance is allowed.
    rt.execute(Withdraw(WithdrawMoney { id: 100, amount_cents: 10_00 })).unwrap();
    assert_eq!(rt.materialize(&100).unwrap().balance, 0);
}

#[test]
fn executed_events_are_returned_and_logged_in_order() {
    let mut rt = bob_runtime();
    let e = rt.execute(Deposit(DepositMoney { id: 100, amount_cents: 42 })).unwrap();
    assert!(matches!(e, AccountEvent::Deposited(MoneyDeposited { id: 100, amount_cents: 42 })));
    let events = rt.events(&100).unwrap();
    assert!(matches!(&events[0], AccountEvent::Created(AccountCreated { id: 100, .. })));
    assert!(matches!(events[1], AccountEvent::Deposited(MoneyDeposited { id: 100, amount_cents: 42 })));
}

#[test]
fn streams_are_kept_per_account() {
    let mut rt = bob_runtime();
    rt.execute(Create(CreateAccount { id: 200, owner: "Carol".into() })).unwrap();
    rt.execute(Deposit(DepositMoney { id: 200, amount_cents: 5 })).unwrap();
    assert_eq!(rt.materialize(&100).unwrap().balance, 0);
    assert_eq!(rt.materialize(&200).unwrap().balance, 5);
    assert_eq!(rt.events(&100).unwrap().len(), 1);
    assert_eq!(rt.events(&200).unwrap().len(), 2);
}

#[test]
fn events_apply_to_an_aggregate() {
    let mut acc = Account::new(3);
    assert_eq!(acc.balance, 0);
    AccountCreated { id: 3, owner: "Dan".into() }.apply(&mut acc);
    MoneyDeposited { id: 3, amount_cents: 700 }.apply(&mut acc);
    MoneyWithdrawn { id: 3, amount_cents: 200 }.apply(&mut acc);
    assert_eq!(acc.owner, "Dan");
    assert_eq!(acc.balance, 500);
    assert_eq!(MoneyWithdrawn { id: 3, amount_cents: 1 }.aggregate_id(), 3);
}

#[test]
fn commands_decide_without_a_runtime() {
    let acc = Account { id: 9, owner: "Eve".into(), balance: 100 };
    let ok = WithdrawMoney { id: 9, amount_cents: 100 }.handle(Some(&acc));
    assert!(matches!(ok, Ok(MoneyWithdrawn { id: 9, amount_cents: 100 })));
    let r: Result<MoneyDeposited, CommandError> =
        DepositMoney { id: 9, amount_cents: 1 }.handle(None);
    assert!(r.is_err());
}
