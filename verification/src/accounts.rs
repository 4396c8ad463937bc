//! Merging bank accounts whose numbers differ only in formatting: the
//! statement import stored one account number as the bank displays it
//! (`9159-482.485-3`) and another as bare digits (`91594824853`), so one
//! physical account ended up as two. Accounts are grouped by their
//! normalized number, the lowest id of each group survives, and every
//! reference by number is rewritten to the normalized form.

use crate::budget::{BankAccount, BankTransaction};
use crate::holidays::UtcDateTime;
use crate::import::{ascii_digits, collect_ascii_digits};
use crate::money::Money;
use vstd::prelude::*;

verus! {

/// A learned pattern of transfers between two of the budget's accounts.
/// Rules are kept in a `Vec`, in their order: a `HashSet` of this struct
/// would rest on a derived `Hash` and `Eq` that vstd gives no model, so
/// nothing could be proved of its contents.
#[derive(Debug)]
pub struct TransferRule {
    pub id: u128,
    pub outgoing_account: String,
    pub incoming_account: String,
    pub outgoing_key: Vec<String>,
    pub incoming_key: Vec<String>,
    pub tag_id: Option<u128>,
}

/// The normalized form of an account number: its decimal digits.
pub open spec fn normalized_number(s: Seq<char>) -> Seq<char> {
    ascii_digits(s)
}

/// The normalized form of an account number: its decimal digits, in order.
pub fn normalize_account_number(account_number: &str) -> (r: String)
    ensures
        r@ == normalized_number(account_number@),
{
    let (digits, _) = collect_ascii_digits(account_number);
    digits
}

/// The account numbers of a list of accounts.
pub open spec fn numbers_of(accounts: Seq<BankAccount>) -> Seq<Seq<char>> {
    accounts.map_values(|a: BankAccount| a.account_number@)
}

/// Some account number is not in normalized form, so a merge is needed.
pub open spec fn needs_normalizing(accounts: Seq<BankAccount>) -> bool {
    exists|i: int| 0 <= i < accounts.len() && normalized_number(#[trigger] numbers_of(accounts)[i]) != numbers_of(accounts)[i]
}

/// The account survives the merge: no account with the same normalized
/// number has a lower id.
pub open spec fn survives(accounts: Seq<BankAccount>, a: BankAccount) -> bool {
    forall|j: int|
        0 <= j < accounts.len() && normalized_number(#[trigger] numbers_of(accounts)[j])
            == normalized_number(a.account_number@) ==> a.id <= accounts[j].id
}

/// What a reference by number becomes: the normalized number when it is
/// the number of one of the accounts and is not normalized already.
pub open spec fn rewritten_number(accounts: Seq<BankAccount>, n: Seq<char>) -> Seq<char> {
    if numbers_of(accounts).contains(n) && normalized_number(n) != n {
        normalized_number(n)
    } else {
        n
    }
}

/// The account after the merge: same account, rewritten number.
pub open spec fn account_after(accounts: Seq<BankAccount>, a: BankAccount, b: BankAccount) -> bool {
    &&& b.id == a.id
    &&& b.account_number@ == rewritten_number(accounts, a.account_number@)
    &&& b.description@ == a.description@
    &&& b.currency@ == a.currency@
    &&& b.balance == a.balance
}

/// The transaction after the merge: same transaction, rewritten number.
pub open spec fn transaction_after(
    accounts: Seq<BankAccount>,
    t: BankTransaction,
    u: BankTransaction,
) -> bool {
    &&& u.id == t.id
    &&& u.account_number@ == rewritten_number(accounts, t.account_number@)
    &&& u.amount == t.amount
    &&& u.description@ == t.description@
    &&& u.date == t.date
    &&& u.budget_item_id == t.budget_item_id
    &&& u.balance == t.balance
}

/// The rule after the merge: same rule, both accounts rewritten.
pub open spec fn rule_after(accounts: Seq<BankAccount>, r: TransferRule, q: TransferRule) -> bool {
    &&& q.id == r.id
    &&& q.outgoing_account@ == rewritten_number(accounts, r.outgoing_account@)
    &&& q.incoming_account@ == rewritten_number(accounts, r.incoming_account@)
    &&& q.outgoing_key@ == r.outgoing_key@
    &&& q.incoming_key@ == r.incoming_key@
    &&& q.tag_id == r.tag_id
}

/// The ids of a list of accounts are distinct.
pub open spec fn distinct_ids(accounts: Seq<BankAccount>) -> bool {
    forall|i: int, j: int|
        0 <= i < accounts.len() && 0 <= j < accounts.len() && i != j ==> #[trigger] accounts[i].id
            != #[trigger] accounts[j].id
}

/// The surviving accounts, in their order.
pub open spec fn surviving_accounts(accounts: Seq<BankAccount>) -> Seq<BankAccount> {
    accounts.filter(|a: BankAccount| survives(accounts, a))
}

/// The normalized numbers of the accounts, one per account.
fn normalized_numbers(accounts: &Vec<BankAccount>) -> (r: Vec<String>)
    ensures
        r@.len() == accounts@.len(),
        forall|i: int| 0 <= i < r@.len() ==> #[trigger] r@[i]@ == normalized_number(accounts@[i].account_number@),
{
    let mut r: Vec<String> = Vec::new();
    let mut i: usize = 0;
    while i < accounts.len()
        invariant
            0 <= i <= accounts@.len(),
            r@.len() == i,
            forall|k: int| 0 <= k < i ==> #[trigger] r@[k]@ == normalized_number(accounts@[k].account_number@),
        decreases accounts@.len() - i,
    {
        r.push(normalize_account_number(accounts[i].account_number.as_str()));
        i = i + 1;
    }
    r
}

/// What a reference by number becomes after the merge.
fn rewrite_number(accounts: &Vec<BankAccount>, norms: &Vec<String>, n: &String) -> (r: String)
    requires
        norms@.len() == accounts@.len(),
        forall|i: int| 0 <= i < norms@.len() ==> #[trigger] norms@[i]@ == normalized_number(accounts@[i].account_number@),
    ensures
        r@ == rewritten_number(accounts@, n@),
{
    let mut i: usize = 0;
    while i < accounts.len()
        invariant
            0 <= i <= accounts@.len(),
            norms@.len() == accounts@.len(),
            forall|k: int| 0 <= k < norms@.len() ==> #[trigger] norms@[k]@ == normalized_number(accounts@[k].account_number@),
            forall|k: int| 0 <= k < i ==> #[trigger] numbers_of(accounts@)[k] != n@,
        decreases accounts@.len() - i,
    {
        if accounts[i].account_number == *n {
            proof {
                assert(numbers_of(accounts@)[i as int] == n@);
            }
            if norms[i] != *n {
                return norms[i].clone();
            } else {
                return n.clone();
            }
        }
        i = i + 1;
    }
    proof {
        assert(!numbers_of(accounts@).contains(n@));
    }
    n.clone()
}

/// Whether the account at `i` survives the merge.
fn survives_at(accounts: &Vec<BankAccount>, norms: &Vec<String>, i: usize) -> (b: bool)
    requires
        i < accounts@.len(),
        norms@.len() == accounts@.len(),
        forall|k: int| 0 <= k < norms@.len() ==> #[trigger] norms@[k]@ == normalized_number(accounts@[k].account_number@),
    ensures
        b == survives(accounts@, accounts@[i as int]),
{
    let mut j: usize = 0;
    while j < accounts.len()
        invariant
            0 <= j <= accounts@.len(),
            i < accounts@.len(),
            norms@.len() == accounts@.len(),
            forall|k: int| 0 <= k < norms@.len() ==> #[trigger] norms@[k]@ == normalized_number(accounts@[k].account_number@),
            forall|k: int|
                0 <= k < j && normalized_number(#[trigger] numbers_of(accounts@)[k])
                    == normalized_number(accounts@[i as int].account_number@) ==> accounts@[i as int].id
                    <= accounts@[k].id,
        decreases accounts@.len() - j,
    {
        if norms[j] == norms[i] && accounts[j].id < accounts[i].id {
            proof {
                assert(normalized_number(numbers_of(accounts@)[j as int]) == normalized_number(
                    accounts@[i as int].account_number@,
                ));
            }
            return false;
        }
        proof {
            assert(normalized_number(numbers_of(accounts@)[j as int]) == norms@[j as int]@);
        }
        j = j + 1;
    }
    true
}

/// A copy of an account with another number.
fn with_number(a: &BankAccount, account_number: String) -> (b: BankAccount)
    ensures
        b.id == a.id,
        b.account_number == account_number,
        b.description@ == a.description@,
        b.currency@ == a.currency@,
        b.balance == a.balance,
{
    BankAccount {
        id: a.id,
        account_number,
        description: a.description.clone(),
        currency: a.currency.clone(),
        balance: a.balance,
    }
}

/// Merges the accounts whose numbers normalize to the same digits. When
/// every account number is already normalized nothing changes and `false`
/// is returned. Otherwise only the account with the lowest id of each
/// group is kept, and the numbers of the accounts, of the transactions and
/// of both sides of the transfer rules are rewritten to their normalized
/// form wherever they are the (unnormalized) number of an account; `true`
/// is returned. Each rule is rewritten in place; two rules that become
/// equal are both kept.
pub fn normalize_account_numbers(
    accounts: &mut Vec<BankAccount>,
    transactions: &mut Vec<BankTransaction>,
    transfer_rules: &mut Vec<TransferRule>,
) -> (changed: bool)
    ensures
        changed == needs_normalizing(old(accounts)@),
        !changed ==> final(accounts)@ == old(accounts)@ && final(transactions)@ == old(transactions)@
            && final(transfer_rules)@ == old(transfer_rules)@,
        changed ==> {
            let kept = surviving_accounts(old(accounts)@);
            &&& final(accounts)@.len() == kept.len()
            &&& forall|i: int|
                0 <= i < kept.len() ==> account_after(old(accounts)@, kept[i], #[trigger] final(accounts)@[i])
            &&& final(transactions)@.len() == old(transactions)@.len()
            &&& forall|i: int|
                0 <= i < old(transactions)@.len() ==> transaction_after(
                    old(accounts)@,
                    old(transactions)@[i],
                    #[trigger] final(transactions)@[i],
                )
            &&& final(transfer_rules)@.len() == old(transfer_rules)@.len()
            &&& forall|i: int|
                0 <= i < old(transfer_rules)@.len() ==> rule_after(
                    old(accounts)@,
                    old(transfer_rules)@[i],
                    #[trigger] final(transfer_rules)@[i],
                )
        },
{
    let ghost accs = accounts@;
    let norms = normalized_numbers(accounts);
    let mut needed = false;
    let mut i: usize = 0;
    while i < accounts.len()
        invariant
            accs == accounts@,
            0 <= i <= accs.len(),
            norms@.len() == accs.len(),
            forall|k: int| 0 <= k < norms@.len() ==> #[trigger] norms@[k]@ == normalized_number(accs[k].account_number@),
            needed == exists|k: int| 0 <= k < i && normalized_number(#[trigger] numbers_of(accs)[k]) != numbers_of(accs)[k],
        decreases accs.len() - i,
    {
        proof {
            assert(numbers_of(accs)[i as int] == accs[i as int].account_number@);
        }
        if norms[i] != accounts[i].account_number {
            needed = true;
        }
        i = i + 1;
    }
    if !needed {
        return false;
    }
    // The surviving accounts, renumbered.
    let ghost pred = |a: BankAccount| survives(accs, a);
    let mut kept: Vec<BankAccount> = Vec::new();
    let ghost mut kept_src: Seq<BankAccount> = Seq::empty();
    let mut i: usize = 0;
    proof {
        reveal(Seq::filter);
        assert(accs.take(0) =~= Seq::<BankAccount>::empty());
    }
    while i < accounts.len()
        invariant
            accs == accounts@,
            0 <= i <= accs.len(),
            norms@.len() == accs.len(),
            forall|k: int| 0 <= k < norms@.len() ==> #[trigger] norms@[k]@ == normalized_number(accs[k].account_number@),
            pred == (|a: BankAccount| survives(accs, a)),
            kept_src == accs.take(i as int).filter(pred),
            kept@.len() == kept_src.len(),
            forall|k: int| 0 <= k < kept_src.len() ==> account_after(accs, kept_src[k], #[trigger] kept@[k]),
        decreases accs.len() - i,
    {
        proof {
            reveal(Seq::filter);
            assert(accs.take(i as int + 1).drop_last() =~= accs.take(i as int));
            assert(accs.take(i as int + 1).last() == accs[i as int]);
        }
        if survives_at(accounts, &norms, i) {
            let n = rewrite_number(accounts, &norms, &accounts[i].account_number);
            kept.push(with_number(&accounts[i], n));
            proof {
                kept_src = kept_src.push(accs[i as int]);
            }
        }
        i = i + 1;
    }
    proof {
        assert(accs.take(accs.len() as int) =~= accs);
    }
    // Transactions.
    let ghost txs = transactions@;
    let mut k: usize = 0;
    while k < transactions.len()
        invariant
            accs == accounts@,
            norms@.len() == accs.len(),
            forall|j: int| 0 <= j < norms@.len() ==> #[trigger] norms@[j]@ == normalized_number(accs[j].account_number@),
            transactions@.len() == txs.len(),
            0 <= k <= txs.len(),
            forall|j: int| 0 <= j < k ==> transaction_after(accs, txs[j], #[trigger] transactions@[j]),
            forall|j: int| k <= j < txs.len() ==> #[trigger] transactions@[j] == txs[j],
        decreases txs.len() - k,
    {
        let n = rewrite_number(accounts, &norms, &transactions[k].account_number);
        transactions[k].account_number = n;
        k = k + 1;
    }
    // Transfer rules.
    let ghost rules = transfer_rules@;
    let mut k: usize = 0;
    while k < transfer_rules.len()
        invariant
            accs == accounts@,
            norms@.len() == accs.len(),
            forall|j: int| 0 <= j < norms@.len() ==> #[trigger] norms@[j]@ == normalized_number(accs[j].account_number@),
            transfer_rules@.len() == rules.len(),
            0 <= k <= rules.len(),
            forall|j: int| 0 <= j < k ==> rule_after(accs, rules[j], #[trigger] transfer_rules@[j]),
            forall|j: int| k <= j < rules.len() ==> #[trigger] transfer_rules@[j] == rules[j],
        decreases rules.len() - k,
    {
        let outgoing = rewrite_number(accounts, &norms, &transfer_rules[k].outgoing_account);
        let incoming = rewrite_number(accounts, &norms, &transfer_rules[k].incoming_account);
        transfer_rules[k].outgoing_account = outgoing;
        transfer_rules[k].incoming_account = incoming;
        k = k + 1;
    }
    *accounts = kept;
    true
}

/// The accounts after a merge, as `normalize_account_numbers` leaves them
/// when it changed something.
pub open spec fn merged_into(before: Seq<BankAccount>, after: Seq<BankAccount>) -> bool {
    let kept = surviving_accounts(before);
    &&& after.len() == kept.len()
    &&& forall|i: int| 0 <= i < kept.len() ==> account_after(before, kept[i], #[trigger] after[i])
}

/// Taking the digits of a text twice gives the digits once.
pub proof fn lemma_digits_idempotent(s: Seq<char>)
    ensures
        ascii_digits(ascii_digits(s)) == ascii_digits(s),
    decreases s.len(),
{
    let p = |c: char| crate::import::is_ascii_digit(c);
    if s.len() == 0 {
        reveal(Seq::filter);
        assert(ascii_digits(s) =~= Seq::<char>::empty());
        assert(ascii_digits(ascii_digits(s)) =~= Seq::<char>::empty());
    } else {
        let rest = s.drop_last();
        let c = s.last();
        lemma_digits_idempotent(rest);
        assert(rest.push(c) =~= s);
        rest.lemma_filter_push(c, p);
        if p(c) {
            ascii_digits(rest).lemma_filter_push(c, p);
        }
    }
}

/// An account of the merged list keeps the normalized form of its number.
proof fn lemma_kept_number_normalized(before: Seq<BankAccount>, a: BankAccount)
    requires
        surviving_accounts(before).contains(a),
    ensures
        rewritten_number(before, a.account_number@) == normalized_number(a.account_number@),
{
    before.lemma_filter_contains_rev(|x: BankAccount| survives(before, x), a);
    let i = choose|i: int| 0 <= i < before.len() && before[i] == a;
    assert(numbers_of(before)[i] == a.account_number@);
}

/// Law: a merge leaves every account number normalized, so merging again
/// changes nothing.
pub proof fn law_merge_is_idempotent(before: Seq<BankAccount>, after: Seq<BankAccount>)
    requires
        merged_into(before, after),
    ensures
        !needs_normalizing(after),
        forall|i: int| 0 <= i < after.len() ==> #[trigger] after[i].account_number@ == normalized_number(
            surviving_accounts(before)[i].account_number@),
{
    let kept = surviving_accounts(before);
    assert forall|i: int| 0 <= i < after.len() implies #[trigger] after[i].account_number@
        == normalized_number(kept[i].account_number@) by {
        assert(kept.contains(kept[i]));
        lemma_kept_number_normalized(before, kept[i]);
    }
    assert forall|i: int| 0 <= i < after.len() implies normalized_number(#[trigger] numbers_of(after)[i])
        == numbers_of(after)[i] by {
        lemma_digits_idempotent(kept[i].account_number@);
    }
}

/// Filtering keeps ids distinct.
proof fn lemma_filter_distinct_ids(s: Seq<BankAccount>, p: spec_fn(BankAccount) -> bool)
    requires
        distinct_ids(s),
    ensures
        distinct_ids(s.filter(p)),
    decreases s.len(),
{
    reveal(Seq::filter);
    if s.len() > 0 {
        let rest = s.drop_last();
        assert(distinct_ids(rest));
        lemma_filter_distinct_ids(rest, p);
        if p(s.last()) {
            let f = rest.filter(p);
            let g = f.push(s.last());
            assert forall|i: int, j: int|
                0 <= i < g.len() && 0 <= j < g.len() && i != j implies #[trigger] g[i].id != #[trigger] g[j].id by {
                if i == f.len() as int || j == f.len() as int {
                    let k = if i == f.len() as int { j } else { i };
                    assert(f.contains(g[k]));
                    rest.lemma_filter_contains_rev(p, g[k]);
                    let m = choose|m: int| 0 <= m < rest.len() && rest[m] == g[k];
                    assert(s[m] == rest[m]);
                    assert(s[s.len() - 1] == s.last());
                }
            }
        }
    }
}

/// Law: when the ids of the accounts are distinct, a merge leaves at most
/// one account per normalized number.
pub proof fn law_one_account_per_number(before: Seq<BankAccount>, after: Seq<BankAccount>)
    requires
        distinct_ids(before),
        merged_into(before, after),
    ensures
        forall|i: int, j: int|
            0 <= i < after.len() && 0 <= j < after.len() && i != j ==> #[trigger] after[i].account_number@
                != #[trigger] after[j].account_number@,
{
    let kept = surviving_accounts(before);
    let p = |x: BankAccount| survives(before, x);
    law_merge_is_idempotent(before, after);
    lemma_filter_distinct_ids(before, p);
    assert forall|i: int, j: int|
        0 <= i < after.len() && 0 <= j < after.len() && i != j implies #[trigger] after[i].account_number@
            != #[trigger] after[j].account_number@ by {
        if after[i].account_number@ == after[j].account_number@ {
            assert(kept.contains(kept[i]));
            assert(kept.contains(kept[j]));
            before.lemma_filter_contains_rev(p, kept[i]);
            before.lemma_filter_contains_rev(p, kept[j]);
            let mi = choose|m: int| 0 <= m < before.len() && before[m] == kept[i];
            let mj = choose|m: int| 0 <= m < before.len() && before[m] == kept[j];
            before.lemma_filter_pred(p, i);
            before.lemma_filter_pred(p, j);
            assert(normalized_number(numbers_of(before)[mj]) == normalized_number(kept[i].account_number@));
            assert(normalized_number(numbers_of(before)[mi]) == normalized_number(kept[j].account_number@));
            assert(kept[i].id == kept[j].id);
        }
    }
}

/// Some account of a list with the given normalized number has the lowest
/// id among those with that number.
proof fn lemma_lowest_id_in_group(s: Seq<BankAccount>, key: Seq<char>) -> (m: int)
    requires
        exists|j: int| 0 <= j < s.len() && normalized_number(#[trigger] numbers_of(s)[j]) == key,
    ensures
        0 <= m < s.len(),
        normalized_number(s[m].account_number@) == key,
        forall|j: int|
            0 <= j < s.len() && normalized_number(#[trigger] numbers_of(s)[j]) == key ==> s[m].id
                <= s[j].id,
    decreases s.len(),
{
    let rest = s.drop_last();
    let last = s.len() - 1;
    assert(numbers_of(s)[last] == s[last].account_number@);
    if exists|j: int| 0 <= j < rest.len() && normalized_number(#[trigger] numbers_of(rest)[j]) == key {
        let m0 = lemma_lowest_id_in_group(rest, key);
        assert(numbers_of(rest)[m0] == rest[m0].account_number@);
        assert forall|j: int| 0 <= j < rest.len() implies #[trigger] numbers_of(s)[j] == numbers_of(rest)[j] by {}
        if normalized_number(s[last].account_number@) == key && s[last].id < rest[m0].id {
            last
        } else {
            m0
        }
    } else {
        let j0 = choose|j: int| 0 <= j < s.len() && normalized_number(#[trigger] numbers_of(s)[j]) == key;
        assert forall|j: int| 0 <= j < s.len() && normalized_number(#[trigger] numbers_of(s)[j]) == key implies j == last by {
            if j < last {
                assert(numbers_of(rest)[j] == numbers_of(s)[j]);
            }
        }
        assert(j0 == last);
        last
    }
}

/// Some account of the list has the number.
pub open spec fn has_account_numbered(accounts: Seq<BankAccount>, n: Seq<char>) -> bool {
    exists|i: int| 0 <= i < accounts.len() && #[trigger] numbers_of(accounts)[i] == n
}

/// Law: a merge keeps an account for every normalized number the accounts
/// had, under that normalized number.
pub proof fn law_every_number_keeps_an_account(before: Seq<BankAccount>, after: Seq<BankAccount>)
    requires
        merged_into(before, after),
    ensures
        forall|k: int|
            0 <= k < before.len() ==> has_account_numbered(
                after,
                normalized_number(#[trigger] numbers_of(before)[k]),
            ),
{
    let kept = surviving_accounts(before);
    let p = |x: BankAccount| survives(before, x);
    law_merge_is_idempotent(before, after);
    assert forall|k: int| 0 <= k < before.len() implies has_account_numbered(
        after,
        normalized_number(#[trigger] numbers_of(before)[k]),
    ) by {
        let key = normalized_number(numbers_of(before)[k]);
        let m = lemma_lowest_id_in_group(before, key);
        assert(p(before[m]));
        before.lemma_filter_contains(p, m);
        let i = choose|i: int| 0 <= i < kept.len() && kept[i] == before[m];
        assert(after[i].account_number@ == normalized_number(kept[i].account_number@));
        assert(numbers_of(after)[i] == after[i].account_number@);
    }
}

} // verus!
