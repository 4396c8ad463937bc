//! A bank-account domain on top of the event-sourcing core: accounts are
//! created, receive deposits and pay withdrawals, all through commands
//! that decide events.

use crate::cqrs::{
    appended, current_state, loaded, Aggregate, Command, CommandError, Event,
};
use crate::text::{is_unicode_whitespace, lemma_trim_empty_iff_all_whitespace, trim, trim_spec};
use vstd::prelude::*;

verus! {

/// An account: owner and balance in cents.
#[derive(Debug, Clone)]
pub struct Account {
    pub id: u64,
    pub owner: String,
    pub balance: i64,
}

/// The mathematical value of an account.
pub struct AccountView {
    pub id: u64,
    pub owner: Seq<char>,
    pub balance: int,
}

impl View for Account {
    type V = AccountView;

    open spec fn view(&self) -> AccountView {
        AccountView { id: self.id, owner: self.owner@, balance: self.balance as int }
    }
}

impl Aggregate for Account {
    type Id = u64;

    open spec fn initial(id: u64) -> AccountView {
        AccountView { id, owner: Seq::empty(), balance: 0 }
    }

    fn new(id: u64) -> (agg: Account) {
        Account { id, owner: String::new(), balance: 0 }
    }
}

// ---- Events ----
/// An account was opened for an owner.
#[derive(Debug)]
pub struct AccountCreated {
    pub id: u64,
    pub owner: String,
}

impl Clone for AccountCreated {
    fn clone(&self) -> (r: AccountCreated)
        ensures
            r == *self,
    {
        AccountCreated { id: self.id, owner: self.owner.clone() }
    }
}

/// Money was paid into an account.
#[derive(Debug, Clone, Copy)]
pub struct MoneyDeposited {
    pub id: u64,
    pub amount_cents: i64,
}

/// Money was taken out of an account.
#[derive(Debug, Clone, Copy)]
pub struct MoneyWithdrawn {
    pub id: u64,
    pub amount_cents: i64,
}

impl Event<Account> for AccountCreated {
    open spec fn target(&self) -> u64 {
        self.id
    }

    open spec fn applicable(&self, state: AccountView) -> bool {
        true
    }

    open spec fn transition(&self, state: AccountView) -> AccountView {
        AccountView { id: self.id, owner: self.owner@, balance: state.balance }
    }

    proof fn lemma_clone_is_same(a: Self, b: Self) {
    }

    fn aggregate_id(&self) -> (id: u64) {
        self.id
    }

    fn apply(&self, state: &mut Account) {
        state.id = self.id;
        state.owner = self.owner.clone();
    }
}

impl Event<Account> for MoneyDeposited {
    open spec fn target(&self) -> u64 {
        self.id
    }

    open spec fn applicable(&self, state: AccountView) -> bool {
        i64::MIN <= state.balance + self.amount_cents <= i64::MAX
    }

    open spec fn transition(&self, state: AccountView) -> AccountView {
        AccountView { balance: state.balance + self.amount_cents, ..state }
    }

    proof fn lemma_clone_is_same(a: Self, b: Self) {
    }

    fn aggregate_id(&self) -> (id: u64) {
        self.id
    }

    fn apply(&self, state: &mut Account) {
        state.balance = state.balance + self.amount_cents;
    }
}

impl Event<Account> for MoneyWithdrawn {
    open spec fn target(&self) -> u64 {
        self.id
    }

    open spec fn applicable(&self, state: AccountView) -> bool {
        i64::MIN <= state.balance - self.amount_cents <= i64::MAX
    }

    open spec fn transition(&self, state: AccountView) -> AccountView {
        AccountView { balance: state.balance - self.amount_cents, ..state }
    }

    proof fn lemma_clone_is_same(a: Self, b: Self) {
    }

    fn aggregate_id(&self) -> (id: u64) {
        self.id
    }

    fn apply(&self, state: &mut Account) {
        state.balance = state.balance - self.amount_cents;
    }
}

/// All account events in one type, so that one runtime keeps one log per
/// account.
#[derive(Debug)]
pub enum AccountEvent {
    Created(AccountCreated),
    Deposited(MoneyDeposited),
    Withdrawn(MoneyWithdrawn),
}

impl Clone for AccountEvent {
    fn clone(&self) -> (r: AccountEvent)
        ensures
            r == *self,
    {
        match self {
            AccountEvent::Created(e) => AccountEvent::Created(e.clone()),
            AccountEvent::Deposited(e) => AccountEvent::Deposited(*e),
            AccountEvent::Withdrawn(e) => AccountEvent::Withdrawn(*e),
        }
    }
}

impl Event<Account> for AccountEvent {
    open spec fn target(&self) -> u64 {
        match self {
            AccountEvent::Created(e) => e.target(),
            AccountEvent::Deposited(e) => e.target(),
            AccountEvent::Withdrawn(e) => e.target(),
        }
    }

    open spec fn applicable(&self, state: AccountView) -> bool {
        match self {
            AccountEvent::Created(e) => e.applicable(state),
            AccountEvent::Deposited(e) => e.applicable(state),
            AccountEvent::Withdrawn(e) => e.applicable(state),
        }
    }

    open spec fn transition(&self, state: AccountView) -> AccountView {
        match self {
            AccountEvent::Created(e) => e.transition(state),
            AccountEvent::Deposited(e) => e.transition(state),
            AccountEvent::Withdrawn(e) => e.transition(state),
        }
    }

    proof fn lemma_clone_is_same(a: Self, b: Self) {
    }

    fn aggregate_id(&self) -> (id: u64) {
        match self {
            AccountEvent::Created(e) => e.aggregate_id(),
            AccountEvent::Deposited(e) => e.aggregate_id(),
            AccountEvent::Withdrawn(e) => e.aggregate_id(),
        }
    }

    fn apply(&self, state: &mut Account) {
        match self {
            AccountEvent::Created(e) => e.apply(state),
            AccountEvent::Deposited(e) => e.apply(state),
            AccountEvent::Withdrawn(e) => e.apply(state),
        }
    }
}

// ---- Commands ----
/// Open an account for an owner.
#[derive(Debug)]
pub struct CreateAccount {
    pub id: u64,
    pub owner: String,
}

/// Pay money into an account.
#[derive(Debug)]
pub struct DepositMoney {
    pub id: u64,
    pub amount_cents: i64,
}

/// Take money out of an account.
#[derive(Debug)]
pub struct WithdrawMoney {
    pub id: u64,
    pub amount_cents: i64,
}

/// The decision of a `CreateAccount` command.
pub open spec fn create_decision(cmd: CreateAccount, state: Option<AccountView>) -> Result<
    AccountCreated,
    CommandError,
> {
    if state is Some {
        Err(CommandError::Conflict("account already exists"))
    } else if trim_spec(cmd.owner@).len() == 0 {
        Err(CommandError::Validation("owner must not be empty"))
    } else {
        Ok(AccountCreated { id: cmd.id, owner: cmd.owner })
    }
}

/// The decision of a `DepositMoney` command.
pub open spec fn deposit_decision(cmd: DepositMoney, state: Option<AccountView>) -> Result<
    MoneyDeposited,
    CommandError,
> {
    if state is None {
        Err(CommandError::NotFound("account does not exist"))
    } else if cmd.amount_cents <= 0 {
        Err(CommandError::Validation("amount must be > 0"))
    } else {
        Ok(MoneyDeposited { id: cmd.id, amount_cents: cmd.amount_cents })
    }
}

/// The decision of a `WithdrawMoney` command.
pub open spec fn withdraw_decision(cmd: WithdrawMoney, state: Option<AccountView>) -> Result<
    MoneyWithdrawn,
    CommandError,
> {
    match state {
        None => Err(CommandError::NotFound("account does not exist")),
        Some(acc) => if cmd.amount_cents <= 0 {
            Err(CommandError::Validation("amount must be > 0"))
        } else if acc.balance < cmd.amount_cents {
            Err(CommandError::Validation("insufficient funds"))
        } else {
            Ok(MoneyWithdrawn { id: cmd.id, amount_cents: cmd.amount_cents })
        },
    }
}

impl Command<Account, AccountCreated> for CreateAccount {
    open spec fn target(&self) -> u64 {
        self.id
    }

    open spec fn decide(self, state: Option<AccountView>) -> Result<AccountCreated, CommandError> {
        create_decision(self, state)
    }

    fn aggregate_id(&self) -> (id: u64) {
        self.id
    }

    fn handle(self, state: Option<&Account>) -> (res: Result<AccountCreated, CommandError>) {
        if state.is_some() {
            return Err(CommandError::Conflict("account already exists"));
        }
        if trim(self.owner.as_str()).is_empty() {
            return Err(CommandError::Validation("owner must not be empty"));
        }
        Ok(AccountCreated { id: self.id, owner: self.owner })
    }
}

impl Command<Account, MoneyDeposited> for DepositMoney {
    open spec fn target(&self) -> u64 {
        self.id
    }

    open spec fn decide(self, state: Option<AccountView>) -> Result<MoneyDeposited, CommandError> {
        deposit_decision(self, state)
    }

    fn aggregate_id(&self) -> (id: u64) {
        self.id
    }

    fn handle(self, state: Option<&Account>) -> (res: Result<MoneyDeposited, CommandError>) {
        if state.is_none() {
            return Err(CommandError::NotFound("account does not exist"));
        }
        if self.amount_cents <= 0 {
            return Err(CommandError::Validation("amount must be > 0"));
        }
        Ok(MoneyDeposited { id: self.id, amount_cents: self.amount_cents })
    }
}

impl Command<Account, MoneyWithdrawn> for WithdrawMoney {
    open spec fn target(&self) -> u64 {
        self.id
    }

    open spec fn decide(self, state: Option<AccountView>) -> Result<MoneyWithdrawn, CommandError> {
        withdraw_decision(self, state)
    }

    fn aggregate_id(&self) -> (id: u64) {
        self.id
    }

    fn handle(self, state: Option<&Account>) -> (res: Result<MoneyWithdrawn, CommandError>) {
        match state {
            None => Err(CommandError::NotFound("account does not exist")),
            Some(acc) => {
                if self.amount_cents <= 0 {
                    return Err(CommandError::Validation("amount must be > 0"));
                }
                if acc.balance < self.amount_cents {
                    return Err(CommandError::Validation("insufficient funds"));
                }
                Ok(MoneyWithdrawn { id: self.id, amount_cents: self.amount_cents })
            },
        }
    }
}

/// `CreateAccount` for a runtime that stores `AccountEvent`s.
#[derive(Debug)]
pub struct Create(pub CreateAccount);

/// `DepositMoney` for a runtime that stores `AccountEvent`s.
#[derive(Debug)]
pub struct Deposit(pub DepositMoney);

/// `WithdrawMoney` for a runtime that stores `AccountEvent`s.
#[derive(Debug)]
pub struct Withdraw(pub WithdrawMoney);

impl Command<Account, AccountEvent> for Create {
    open spec fn target(&self) -> u64 {
        self.0.id
    }

    open spec fn decide(self, state: Option<AccountView>) -> Result<AccountEvent, CommandError> {
        match create_decision(self.0, state) {
            Ok(e) => Ok(AccountEvent::Created(e)),
            Err(err) => Err(err),
        }
    }

    fn aggregate_id(&self) -> (id: u64) {
        self.0.id
    }

    fn handle(self, state: Option<&Account>) -> (res: Result<AccountEvent, CommandError>) {
        match self.0.handle(state) {
            Ok(e) => Ok(AccountEvent::Created(e)),
            Err(err) => Err(err),
        }
    }
}

impl Command<Account, AccountEvent> for Deposit {
    open spec fn target(&self) -> u64 {
        self.0.id
    }

    open spec fn decide(self, state: Option<AccountView>) -> Result<AccountEvent, CommandError> {
        match deposit_decision(self.0, state) {
            Ok(e) => Ok(AccountEvent::Deposited(e)),
            Err(err) => Err(err),
        }
    }

    fn aggregate_id(&self) -> (id: u64) {
        self.0.id
    }

    fn handle(self, state: Option<&Account>) -> (res: Result<AccountEvent, CommandError>) {
        match self.0.handle(state) {
            Ok(e) => Ok(AccountEvent::Deposited(e)),
            Err(err) => Err(err),
        }
    }
}

impl Command<Account, AccountEvent> for Withdraw {
    open spec fn target(&self) -> u64 {
        self.0.id
    }

    open spec fn decide(self, state: Option<AccountView>) -> Result<AccountEvent, CommandError> {
        match withdraw_decision(self.0, state) {
            Ok(e) => Ok(AccountEvent::Withdrawn(e)),
            Err(err) => Err(err),
        }
    }

    fn aggregate_id(&self) -> (id: u64) {
        self.0.id
    }

    fn handle(self, state: Option<&Account>) -> (res: Result<AccountEvent, CommandError>) {
        match self.0.handle(state) {
            Ok(e) => Ok(AccountEvent::Withdrawn(e)),
            Err(err) => Err(err),
        }
    }
}

/// Every account of a store has a non-negative balance.
pub open spec fn all_balances_nonnegative(streams: Map<u64, Seq<AccountEvent>>) -> bool {
    forall|id: u64| #[trigger] current_state::<Account, AccountEvent>(streams, id).balance >= 0
}

/// Law: a withdrawal that is accepted never overdraws the account, and it
/// lowers the balance by exactly the amount withdrawn.
pub proof fn law_withdraw_never_overdraws(cmd: WithdrawMoney, state: AccountView)
    requires
        state.balance >= 0,
        withdraw_decision(cmd, Some(state)) is Ok,
    ensures
        withdraw_decision(cmd, Some(state))->Ok_0.transition(state).balance >= 0,
        withdraw_decision(cmd, Some(state))->Ok_0.transition(state).balance == state.balance
            - cmd.amount_cents,
{
}

/// Law: an accepted deposit raises the balance by exactly the (positive)
/// amount deposited.
pub proof fn law_deposit_adds_amount(cmd: DepositMoney, state: AccountView)
    requires
        deposit_decision(cmd, Some(state)) is Ok,
    ensures
        cmd.amount_cents > 0,
        deposit_decision(cmd, Some(state))->Ok_0.transition(state).balance == state.balance
            + cmd.amount_cents,
{
}

/// Law: an account can be created only once, and only with a non-blank
/// owner.
pub proof fn law_create_only_once(cmd: CreateAccount, state: Option<AccountView>)
    ensures
        state is Some ==> create_decision(cmd, state) == Err::<AccountCreated, CommandError>(
            CommandError::Conflict("account already exists"),
        ),
        create_decision(cmd, state) is Ok ==> trim_spec(cmd.owner@).len() > 0,
{
}

/// Law: a new account is refused as having an empty owner exactly when
/// every character of the owner is whitespace.
pub proof fn law_blank_owner_refused(cmd: CreateAccount)
    ensures
        create_decision(cmd, None) is Err <==> forall|i: int|
            0 <= i < cmd.owner@.len() ==> is_unicode_whitespace(#[trigger] cmd.owner@[i]),
{
    lemma_trim_empty_iff_all_whitespace(cmd.owner@);
}

/// Law: in a store driven by the account commands, no balance ever goes
/// negative: executing any accepted account command on a store whose
/// balances are all non-negative leaves them all non-negative.
pub proof fn law_commands_keep_balances_nonnegative(
    streams: Map<u64, Seq<AccountEvent>>,
    ev: AccountEvent,
)
    requires
        all_balances_nonnegative(streams),
        ({
            ||| exists|c: Create| #[trigger] c.decide(loaded::<Account, AccountEvent>(streams, c.target())) == Ok::<AccountEvent, CommandError>(ev)
            ||| exists|c: Deposit| #[trigger] c.decide(loaded::<Account, AccountEvent>(streams, c.target())) == Ok::<AccountEvent, CommandError>(ev)
            ||| exists|c: Withdraw| #[trigger] c.decide(loaded::<Account, AccountEvent>(streams, c.target())) == Ok::<AccountEvent, CommandError>(ev)
        }),
    ensures
        all_balances_nonnegative(appended::<Account, AccountEvent>(streams, ev)),
{
    let new_streams = appended::<Account, AccountEvent>(streams, ev);
    assert forall|id: u64| #[trigger] current_state::<Account, AccountEvent>(new_streams, id).balance >= 0 by {
        crate::cqrs::law_load_after_append::<Account, AccountEvent>(streams, ev, id);
        if id == ev.target() {
            let before = current_state::<Account, AccountEvent>(streams, id);
            assert(before.balance >= 0);
            if exists|c: Withdraw| #[trigger] c.decide(loaded::<Account, AccountEvent>(streams, c.target())) == Ok::<AccountEvent, CommandError>(ev) {
                let c = choose|c: Withdraw| #[trigger] c.decide(loaded::<Account, AccountEvent>(streams, c.target())) == Ok::<AccountEvent, CommandError>(ev);
                assert(loaded::<Account, AccountEvent>(streams, c.target()) == Some(before));
            }
        } else {
            assert(current_state::<Account, AccountEvent>(new_streams, id) == current_state::<Account, AccountEvent>(streams, id));
        }
    }
}

} // verus!
