//! Running an import plan against the accounts and transactions of a
//! budget: every command is decided against the state left by the ones
//! before it, an account is opened only for a number not seen yet, and a
//! transaction is added only when no transaction with the same content was
//! added before.

use crate::budget::{
    get_transaction_hash, transaction_hash_of, BankAccount, BankAccountView, BankTransaction,
    BankTransactionStore, BankTransactionView,
};
use crate::framework::{CommandError, CommandErrorView};
use crate::holidays::UtcDateTime;
use crate::import::{command_kind, command_views, dates_wf, tally, ImportCommand, ImportCommandView, RowCommandKind};
use crate::money::{Currency, Money};
use vstd::prelude::*;

verus! {

/// The bank accounts and transactions of a budget.
#[derive(Debug)]
pub struct Ledger {
    pub accounts: Vec<BankAccount>,
    pub transactions: BankTransactionStore,
}

/// The mathematical value of a ledger: its accounts in order, the content
/// hashes of its transactions, and its transactions by id.
pub struct LedgerView {
    pub accounts: Seq<BankAccountView>,
    pub hashes: Set<u64>,
    pub transactions: Map<u128, BankTransactionView>,
}

/// The values of a map of transactions.
pub open spec fn transaction_views(m: Map<u128, BankTransaction>) -> Map<u128, BankTransactionView> {
    m.map_values(|t: BankTransaction| t@)
}

/// Inserting a transaction into a map inserts its value into the map of
/// values.
pub broadcast proof fn lemma_transaction_views_insert(
    m: Map<u128, BankTransaction>,
    k: u128,
    v: BankTransaction,
)
    ensures
        #[trigger] transaction_views(m.insert(k, v)) == transaction_views(m).insert(k, v@),
{
    assert(transaction_views(m.insert(k, v)) =~= transaction_views(m).insert(k, v@));
}

impl View for Ledger {
    type V = LedgerView;

    open spec fn view(&self) -> LedgerView {
        LedgerView {
            accounts: self.accounts@.map_values(|a: BankAccount| a@),
            hashes: self.transactions.hashes(),
            transactions: transaction_views(self.transactions.transactions()),
        }
    }
}

/// The numbers of a list of accounts.
pub open spec fn account_numbers(accounts: Seq<BankAccountView>) -> Seq<Seq<char>> {
    accounts.map_values(|a: BankAccountView| a.account_number)
}

/// The message of an account that exists already.
pub open spec fn account_exists_message(account_number: Seq<char>) -> Seq<char> {
    "Account "@ + account_number + " already exists"@
}

/// The message of a transaction that was added before.
pub open spec fn duplicate_transaction_message() -> Seq<char> {
    "Transaction already exists."@
}

/// Opening an account: refused when an account has the number already;
/// otherwise the account is appended, with no currency text and a zero
/// balance in kronor.
pub open spec fn create_account_outcome(
    l: LedgerView,
    id: u128,
    account_number: Seq<char>,
    description: Seq<char>,
) -> (LedgerView, Result<u128, CommandErrorView>) {
    if account_numbers(l.accounts).contains(account_number) {
        (l, Err(CommandErrorView::Validation(account_exists_message(account_number))))
    } else {
        (
            LedgerView {
                accounts: l.accounts.push(
                    BankAccountView {
                        id,
                        account_number,
                        description,
                        currency: Seq::empty(),
                        balance: Money::spec_new(0, Currency::SEK),
                    },
                ),
                hashes: l.hashes,
                transactions: l.transactions,
            },
            Ok(id),
        )
    }
}

/// Adding a transaction: refused when a transaction with the same content
/// hash was added before; otherwise its hash is recorded and it is stored
/// under its id, connected to no budget item.
pub open spec fn add_transaction_outcome(
    l: LedgerView,
    id: u128,
    account_number: Seq<char>,
    amount: Money,
    balance: Money,
    description: Seq<char>,
    date: UtcDateTime,
) -> (LedgerView, Result<u128, CommandErrorView>) {
    let h = transaction_hash_of(amount, balance, account_number, description, date);
    if l.hashes.contains(h) {
        (l, Err(CommandErrorView::Validation(duplicate_transaction_message())))
    } else {
        (
            LedgerView {
                accounts: l.accounts,
                hashes: l.hashes.insert(h),
                transactions: l.transactions.insert(
                    id,
                    BankTransactionView {
                        id,
                        account_number,
                        amount,
                        description,
                        date,
                        budget_item_id: None,
                        balance,
                    },
                ),
            },
            Ok(id),
        )
    }
}

/// The outcome of one import command, given the id it creates.
pub open spec fn command_outcome(l: LedgerView, c: ImportCommandView, id: u128) -> (
    LedgerView,
    Result<u128, CommandErrorView>,
) {
    match c {
        ImportCommandView::CreateBankAccount { account_number, description } => {
            create_account_outcome(l, id, account_number, description)
        },
        ImportCommandView::AddTransaction { account_number, amount, balance, description, date } => {
            add_transaction_outcome(l, id, account_number, amount, balance, description, date)
        },
    }
}

/// The ledger and the results after running the commands in order, the
/// command at index `k` creating the id `ids[k]`.
pub open spec fn import_outcome(l: LedgerView, cmds: Seq<ImportCommandView>, ids: Seq<u128>) -> (
    LedgerView,
    Seq<Result<u128, CommandErrorView>>,
)
    decreases cmds.len(),
{
    if cmds.len() == 0 {
        (l, Seq::empty())
    } else {
        let before = import_outcome(l, cmds.drop_last(), ids);
        let step = command_outcome(before.0, cmds.last(), ids[cmds.len() - 1]);
        (step.0, before.1.push(step.1))
    }
}

/// The values of command results.
pub open spec fn result_views(s: Seq<Result<u128, CommandError>>) -> Seq<Result<u128, CommandErrorView>> {
    s.map_values(
        |r: Result<u128, CommandError>|
            match r {
                Ok(id) => Ok(id),
                Err(e) => Err(e@),
            },
    )
}

/// The value of one command result.
pub open spec fn result_view(r: Result<u128, CommandError>) -> Result<u128, CommandErrorView> {
    match r {
        Ok(id) => Ok(id),
        Err(e) => Err(e@),
    }
}

impl Ledger {
    /// Every stored transaction has a date `chrono` can represent.
    pub open spec fn wf(&self) -> bool {
        self.transactions.wf()
    }

    /// A ledger with no accounts and no transactions.
    pub fn new() -> (l: Ledger)
        ensures
            l.wf(),
            l@.accounts.len() == 0,
            l@.hashes == Set::<u64>::empty(),
            l@.transactions == Map::<u128, BankTransactionView>::empty(),
    {
        let l = Ledger { accounts: Vec::new(), transactions: BankTransactionStore::new() };
        assert(l@.transactions =~= Map::<u128, BankTransactionView>::empty());
        l
    }

    /// Whether an account has the given number.
    pub fn has_account(&self, account_number: &String) -> (b: bool)
        ensures
            b == account_numbers(self@.accounts).contains(account_number@),
    {
        let mut i: usize = 0;
        while i < self.accounts.len()
            invariant
                0 <= i <= self.accounts@.len(),
                forall|k: int| 0 <= k < i ==> #[trigger] self.accounts@[k].account_number@ != account_number@,
            decreases self.accounts@.len() - i,
        {
            if self.accounts[i].account_number == *account_number {
                proof {
                    assert(account_numbers(self@.accounts)[i as int] == account_number@);
                }
                return true;
            }
            i = i + 1;
        }
        proof {
            if account_numbers(self@.accounts).contains(account_number@) {
                let k = choose|k: int| 0 <= k < account_numbers(self@.accounts).len() && account_numbers(self@.accounts)[k] == account_number@;
                assert(self.accounts@[k].account_number@ == account_number@);
            }
        }
        false
    }

    /// Opens an account with the given id, unless an account has the number
    /// already.
    pub fn create_bank_account(&mut self, account_id: u128, account_number: String, description: String) -> (r:
        Result<u128, CommandError>)
        requires
            old(self).wf(),
        ensures
            final(self).wf(),
            final(self)@ == create_account_outcome(old(self)@, account_id, account_number@, description@).0,
            result_view(r) == create_account_outcome(old(self)@, account_id, account_number@, description@).1,
    {
        if self.has_account(&account_number) {
            let mut message = "Account ".to_owned();
            message.append(account_number.as_str());
            message.append(" already exists");
            return Err(CommandError::Validation(message));
        }
        let ghost before = self@;
        let account = BankAccount {
            id: account_id,
            account_number,
            description,
            currency: String::new(),
            balance: Money::new_cents(0, Currency::SEK),
        };
        let ghost av = account@;
        let ghost old_accounts = self.accounts@;
        self.accounts.push(account);
        proof {
            assert(self.accounts@.map_values(|a: BankAccount| a@) =~= old_accounts.map_values(
                |a: BankAccount| a@,
            ).push(av));
            assert(self@ == create_account_outcome(before, account_id, av.account_number, av.description).0);
        }
        Ok(account_id)
    }

    /// Adds a transaction with the given id, unless a transaction with the
    /// same content was added before.
    pub fn add_transaction(
        &mut self,
        transaction_id: u128,
        account_number: String,
        amount: Money,
        balance: Money,
        description: String,
        date: UtcDateTime,
    ) -> (r: Result<u128, CommandError>)
        requires
            old(self).wf(),
            date.wf(),
        ensures
            final(self).wf(),
            final(self)@ == add_transaction_outcome(
                old(self)@,
                transaction_id,
                account_number@,
                amount,
                balance,
                description@,
                date,
            ).0,
            result_view(r) == add_transaction_outcome(
                old(self)@,
                transaction_id,
                account_number@,
                amount,
                balance,
                description@,
                date,
            ).1,
    {
        let h = get_transaction_hash(&amount, &balance, account_number.as_str(), description.as_str(), &date);
        if !self.transactions.can_insert(&h) {
            return Err(CommandError::Validation("Transaction already exists.".to_owned()));
        }
        let ghost before = self@;
        let tx = BankTransaction::new(
            transaction_id,
            account_number.as_str(),
            amount,
            balance,
            description.as_str(),
            date,
        );
        let ghost tv = tx@;
        let ghost old_map = self.transactions.transactions();
        let added = self.transactions.insert(tx);
        proof {
            broadcast use lemma_transaction_views_insert;
            assert(added);
            assert(self@.transactions == transaction_views(old_map).insert(transaction_id, tv));
        }
        Ok(transaction_id)
    }

    /// Runs the commands of an import plan in order against this ledger,
    /// the command at index `k` creating the id `ids[k]`, and returns the
    /// result of each: the id it created, or why it was refused.
    pub fn execute_import(&mut self, commands: &Vec<ImportCommand>, ids: &Vec<u128>) -> (results: Vec<
        Result<u128, CommandError>,
    >)
        requires
            old(self).wf(),
            ids@.len() >= commands@.len(),
            dates_wf(commands@),
        ensures
            final(self).wf(),
            final(self)@ == import_outcome(old(self)@, command_views(commands@), ids@).0,
            result_views(results@) == import_outcome(old(self)@, command_views(commands@), ids@).1,
    {
        let ghost start = self@;
        let ghost cmds = command_views(commands@);
        let mut results: Vec<Result<u128, CommandError>> = Vec::new();
        let mut i: usize = 0;
        proof {
            assert(cmds.take(0) =~= Seq::<ImportCommandView>::empty());
            assert(result_views(results@) =~= Seq::<Result<u128, CommandErrorView>>::empty());
        }
        while i < commands.len()
            invariant
                cmds == command_views(commands@),
                ids@.len() >= commands@.len(),
                dates_wf(commands@),
                0 <= i <= commands@.len(),
                self.wf(),
                self@ == import_outcome(start, cmds.take(i as int), ids@).0,
                result_views(results@) == import_outcome(start, cmds.take(i as int), ids@).1,
            decreases commands@.len() - i,
        {
            proof {
                assert(cmds.take(i as int + 1).drop_last() =~= cmds.take(i as int));
                assert(cmds.take(i as int + 1).last() == commands@[i as int]@);
            }
            let ghost before = self@;
            let r = match &commands[i] {
                ImportCommand::CreateBankAccount { account_number, description } => {
                    self.create_bank_account(ids[i], account_number.clone(), description.clone())
                },
                ImportCommand::AddTransaction { account_number, amount, balance, description, date } => {
                    proof {
                        assert(commands@[i as int] matches ImportCommand::AddTransaction { date, .. } ==> date.wf());
                    }
                    self.add_transaction(
                        ids[i],
                        account_number.clone(),
                        *amount,
                        *balance,
                        description.clone(),
                        *date,
                    )
                },
            };
            let ghost rs_before = results@;
            results.push(r);
            proof {
                assert(result_views(results@) =~= result_views(rs_before).push(result_view(r)));
            }
            i = i + 1;
        }
        proof {
            assert(cmds.take(commands@.len() as int) =~= cmds);
        }
        results
    }
}

/// The index of the first account with the given number, if any.
pub open spec fn first_account_index(accounts: Seq<BankAccountView>, account_number: Seq<char>) -> Option<
    int,
> {
    if account_numbers(accounts).contains(account_number) {
        Some(
            choose|i: int|
                0 <= i < accounts.len() && accounts[i].account_number == account_number && forall|j: int|
                    0 <= j < i ==> #[trigger] accounts[j].account_number != account_number,
        )
    } else {
        None
    }
}

impl Ledger {
    /// The first account with the given number, if any.
    pub fn get_account(&self, account_number: &String) -> (r: Option<&BankAccount>)
        ensures
            match r {
                Some(a) => first_account_index(self@.accounts, account_number@) matches Some(i) && a@
                    == self@.accounts[i],
                None => first_account_index(self@.accounts, account_number@) is None,
            },
    {
        let mut i: usize = 0;
        while i < self.accounts.len()
            invariant
                0 <= i <= self.accounts@.len(),
                forall|k: int| 0 <= k < i ==> #[trigger] self.accounts@[k].account_number@ != account_number@,
            decreases self.accounts@.len() - i,
        {
            if self.accounts[i].account_number == *account_number {
                proof {
                    let accs = self@.accounts;
                    assert(account_numbers(accs)[i as int] == account_number@);
                    assert(accs[i as int].account_number == account_number@);
                    assert forall|j: int| 0 <= j < i implies #[trigger] accs[j].account_number
                        != account_number@ by {
                        assert(accs[j] == self.accounts@[j]@);
                    }
                    let c = choose|c: int|
                        0 <= c < accs.len() && accs[c].account_number == account_number@ && forall|j: int|
                            0 <= j < c ==> #[trigger] accs[j].account_number != account_number@;
                    if c < i {
                        assert(accs[c] == self.accounts@[c]@);
                    }
                    if c > i {
                        assert(accs[i as int].account_number != account_number@);
                    }
                }
                return Some(&self.accounts[i]);
            }
            i = i + 1;
        }
        proof {
            if account_numbers(self@.accounts).contains(account_number@) {
                let k = choose|k: int| 0 <= k < account_numbers(self@.accounts).len() && account_numbers(self@.accounts)[k] == account_number@;
                assert(self.accounts@[k].account_number@ == account_number@);
            }
        }
        None
    }

    /// The id of the first account with the given number, opening one with
    /// the given id when there is none.
    pub fn ensure_account(&mut self, account_id: u128, account_number: String, description: String) -> (id:
        u128)
        requires
            old(self).wf(),
        ensures
            final(self).wf(),
            match first_account_index(old(self)@.accounts, account_number@) {
                Some(i) => id == old(self)@.accounts[i].id && final(self)@ == old(self)@,
                None => id == account_id && final(self)@ == create_account_outcome(
                    old(self)@,
                    account_id,
                    account_number@,
                    description@,
                ).0,
            },
    {
        match self.get_account(&account_number) {
            Some(existing) => existing.id,
            None => {
                let _ = self.create_bank_account(account_id, account_number, description);
                account_id
            },
        }
    }
}

/// Calls `uuid::Uuid::new_v4` and takes the id as a number: a random id,
/// of which nothing is claimed.
#[verifier::external_body]
fn new_id() -> (id: u128) {
    uuid::Uuid::new_v4().as_u128()
}

impl Ledger {
    /// Runs the commands of an import plan in order against this ledger,
    /// each command that creates something getting a fresh random id, and
    /// returns the result of each.
    pub fn import_commands(&mut self, commands: &Vec<ImportCommand>) -> (results: Vec<
        Result<u128, CommandError>,
    >)
        requires
            old(self).wf(),
            dates_wf(commands@),
        ensures
            final(self).wf(),
            exists|ids: Seq<u128>|
                {
                    &&& ids.len() == commands@.len()
                    &&& final(self)@ == import_outcome(old(self)@, command_views(commands@), ids).0
                    &&& result_views(results@) == #[trigger] import_outcome(
                        old(self)@,
                        command_views(commands@),
                        ids,
                    ).1
                },
    {
        let mut ids: Vec<u128> = Vec::new();
        let mut i: usize = 0;
        while i < commands.len()
            invariant
                0 <= i <= commands@.len(),
                ids@.len() == i,
            decreases commands@.len() - i,
        {
            ids.push(new_id());
            i = i + 1;
        }
        self.execute_import(commands, &ids)
    }
}

/// The command is decided already by the ledger: its account number is
/// taken, or a transaction with its content was added.
pub open spec fn already_covered(l: LedgerView, c: ImportCommandView) -> bool {
    match c {
        ImportCommandView::CreateBankAccount { account_number, .. } => account_numbers(l.accounts).contains(
            account_number,
        ),
        ImportCommandView::AddTransaction { account_number, amount, balance, description, date } => {
            l.hashes.contains(transaction_hash_of(amount, balance, account_number, description, date))
        },
    }
}

/// A command that is covered stays covered after any other command.
proof fn lemma_covered_stays(l: LedgerView, c: ImportCommandView, d: ImportCommandView, id: u128)
    requires
        already_covered(l, c),
    ensures
        already_covered(command_outcome(l, d, id).0, c),
{
    let l2 = command_outcome(l, d, id).0;
    match c {
        ImportCommandView::CreateBankAccount { account_number, .. } => {
            let k = choose|k: int| 0 <= k < account_numbers(l.accounts).len() && account_numbers(l.accounts)[k] == account_number;
            if l2.accounts.len() > l.accounts.len() {
                assert(account_numbers(l2.accounts)[k] == account_number);
            }
        },
        _ => {},
    }
}

/// After running commands, every one of them is covered.
proof fn lemma_import_covers(l: LedgerView, cmds: Seq<ImportCommandView>, ids: Seq<u128>)
    requires
        ids.len() >= cmds.len(),
    ensures
        forall|k: int| 0 <= k < cmds.len() ==> already_covered(import_outcome(l, cmds, ids).0, #[trigger] cmds[k]),
    decreases cmds.len(),
{
    if cmds.len() > 0 {
        let rest = cmds.drop_last();
        lemma_import_covers(l, rest, ids);
        let before = import_outcome(l, rest, ids).0;
        let last = cmds.last();
        let id = ids[cmds.len() - 1];
        let after = command_outcome(before, last, id).0;
        assert forall|k: int| 0 <= k < cmds.len() implies already_covered(after, #[trigger] cmds[k]) by {
            if k < cmds.len() - 1 {
                assert(cmds[k] == rest[k]);
                lemma_covered_stays(before, cmds[k], last, id);
            } else {
                match last {
                    ImportCommandView::CreateBankAccount { account_number, .. } => {
                        if !account_numbers(before.accounts).contains(account_number) {
                            assert(account_numbers(after.accounts)[before.accounts.len() as int]
                                == account_number);
                        }
                    },
                    _ => {},
                }
            }
        }
    }
}

/// Commands that are all covered are all refused and change nothing.
proof fn lemma_covered_import_refused(l: LedgerView, cmds: Seq<ImportCommandView>, ids: Seq<u128>)
    requires
        ids.len() >= cmds.len(),
        forall|k: int| 0 <= k < cmds.len() ==> already_covered(l, #[trigger] cmds[k]),
    ensures
        import_outcome(l, cmds, ids).0 == l,
        import_outcome(l, cmds, ids).1.len() == cmds.len(),
        forall|k: int| 0 <= k < cmds.len() ==> (#[trigger] import_outcome(l, cmds, ids).1[k]) is Err,
    decreases cmds.len(),
{
    if cmds.len() > 0 {
        let rest = cmds.drop_last();
        assert forall|k: int| 0 <= k < rest.len() implies already_covered(l, #[trigger] rest[k]) by {
            assert(rest[k] == cmds[k]);
        }
        lemma_covered_import_refused(l, rest, ids);
        assert(already_covered(l, cmds[cmds.len() - 1]));
    }
}

/// Law: importing the same plan a second time changes nothing: every
/// account it opens exists and every transaction it adds was added, so
/// each of its commands is refused.
pub proof fn law_second_import_changes_nothing(
    l: LedgerView,
    cmds: Seq<ImportCommandView>,
    first_ids: Seq<u128>,
    second_ids: Seq<u128>,
)
    requires
        first_ids.len() >= cmds.len(),
        second_ids.len() >= cmds.len(),
    ensures
        ({
            let once = import_outcome(l, cmds, first_ids).0;
            let twice = import_outcome(once, cmds, second_ids);
            &&& twice.0 == once
            &&& twice.1.len() == cmds.len()
            &&& forall|k: int| 0 <= k < cmds.len() ==> (#[trigger] twice.1[k]) is Err
        }),
{
    lemma_import_covers(l, cmds, first_ids);
    lemma_covered_import_refused(import_outcome(l, cmds, first_ids).0, cmds, second_ids);
}

/// Law: when every command of an import is refused, the tally counts no
/// transaction as imported and every transaction as not imported.
pub proof fn law_refused_import_tallies_nothing(
    kinds: Seq<RowCommandKind>,
    results: Seq<Result<u128, CommandError>>,
    n: int,
)
    requires
        0 <= n <= kinds.len(),
        n <= results.len(),
        forall|k: int| 0 <= k < n ==> (#[trigger] results[k]) is Err,
    ensures
        tally(kinds, results, n).0 == 0,
    decreases n,
{
    if n > 0 {
        law_refused_import_tallies_nothing(kinds, results, n - 1);
    }
}

} // verus!
