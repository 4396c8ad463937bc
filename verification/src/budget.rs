//! Budget items and bank transactions, and the stores that keep them:
//! budget items indexed by id and by budgeting type, and bank transactions
//! indexed by id with duplicates detected by content hash.

use crate::holidays::UtcDateTime;
use crate::money::{Currency, Money};
use std::collections::{HashMap, HashSet};
use std::hash::{Hash, Hasher};
use vstd::prelude::*;

verus! {

broadcast use vstd::std_specs::hash::group_hash_axioms;

/// What a budget item is for.
#[derive(Debug, Clone, Copy, PartialEq, Eq, Structural, Hash)]
pub enum BudgetingType {
    Income,
    Expense,
    Savings,
}

impl Default for BudgetingType {
    fn default() -> (t: BudgetingType)
        ensures
            t == BudgetingType::Income,
    {
        BudgetingType::Income
    }
}

impl BudgetingType {
    /// The Swedish label shown for the type.
    pub fn display_name(&self) -> (s: &'static str)
        ensures
            s@ == (match self {
                BudgetingType::Income => "Inkomst"@,
                BudgetingType::Expense => "Utgift"@,
                BudgetingType::Savings => "Sparande"@,
            }),
    {
        match self {
            BudgetingType::Income => "Inkomst",
            BudgetingType::Expense => "Utgift",
            BudgetingType::Savings => "Sparande",
        }
    }
}

/// A line of the budget.
#[derive(Debug, PartialEq)]
pub struct BudgetItem {
    pub id: u128,
    pub name: String,
    pub item_type: BudgetingType,
    pub budgeted_amount: Money,
    pub actual_spent: Money,
    pub notes: Option<String>,
    pub tags: Vec<String>,
}

/// The mathematical value of a budget item.
pub struct BudgetItemView {
    pub id: u128,
    pub name: Seq<char>,
    pub item_type: BudgetingType,
    pub budgeted_amount: Money,
    pub actual_spent: Money,
    pub notes: Option<Seq<char>>,
    pub tags: Seq<Seq<char>>,
}

impl View for BudgetItem {
    type V = BudgetItemView;

    open spec fn view(&self) -> BudgetItemView {
        BudgetItemView {
            id: self.id,
            name: self.name@,
            item_type: self.item_type,
            budgeted_amount: self.budgeted_amount,
            actual_spent: self.actual_spent,
            notes: match self.notes {
                Some(n) => Some(n@),
                None => None,
            },
            tags: self.tags@.map_values(|t: String| t@),
        }
    }
}

impl Clone for BudgetItem {
    fn clone(&self) -> (r: BudgetItem)
        ensures
            r@ == self@,
    {
        let notes = match &self.notes {
            Some(n) => Some(n.clone()),
            None => None,
        };
        let mut tags: Vec<String> = Vec::new();
        let mut i: usize = 0;
        while i < self.tags.len()
            invariant
                0 <= i <= self.tags.len(),
                tags@ == self.tags@.take(i as int),
            decreases self.tags.len() - i,
        {
            tags.push(self.tags[i].clone());
            assert(tags@ =~= self.tags@.take(i as int + 1));
            i = i + 1;
        }
        assert(tags@ =~= self.tags@);
        assert(tags@.map_values(|t: String| t@) =~= self.tags@.map_values(|t: String| t@));
        BudgetItem {
            id: self.id,
            name: self.name.clone(),
            item_type: self.item_type,
            budgeted_amount: self.budgeted_amount,
            actual_spent: self.actual_spent,
            notes,
            tags,
        }
    }
}

impl BudgetItem {
    /// A new item with nothing spent yet.
    pub fn new(
        id: u128,
        name: &str,
        item_type: BudgetingType,
        budgeted_amount: Money,
        notes: Option<String>,
        tags: Option<Vec<String>>,
    ) -> (item: BudgetItem)
        ensures
            item.id == id,
            item.name@ == name@,
            item.item_type == item_type,
            item.budgeted_amount == budgeted_amount,
            item.actual_spent.spec_cents() == 0,
            item.actual_spent.spec_currency() == budgeted_amount.spec_currency(),
            item.notes == notes,
            item.tags@ == match tags {
                Some(t) => t@,
                None => Seq::<String>::empty(),
            },
    {
        BudgetItem {
            id,
            name: name.to_owned(),
            item_type,
            budgeted_amount,
            actual_spent: Money::new_dollars(0, budgeted_amount.currency()),
            notes,
            tags: match tags {
                Some(t) => t,
                None => Vec::new(),
            },
        }
    }
}

/// A group of budget items of one type.
#[derive(Debug, Clone, PartialEq)]
pub struct BudgetGroup {
    pub id: u128,
    pub name: String,
    pub group_type: BudgetingType,
    pub items: Vec<BudgetItem>,
    pub budgeted_amount: Money,
    pub actual_spent: Money,
}

impl BudgetGroup {
    /// An empty group with zero amounts in the given currency.
    pub fn new(id: u128, name: &str, group_type: BudgetingType, currency: Currency) -> (g:
        BudgetGroup)
        ensures
            g.id == id,
            g.name@ == name@,
            g.group_type == group_type,
            g.items@.len() == 0,
            g.budgeted_amount.spec_cents() == 0,
            g.budgeted_amount.spec_currency() == currency,
            g.actual_spent.spec_cents() == 0,
            g.actual_spent.spec_currency() == currency,
    {
        BudgetGroup {
            id,
            name: name.to_owned(),
            group_type,
            items: Vec::new(),
            budgeted_amount: Money::new_cents(0, currency),
            actual_spent: Money::new_cents(0, currency),
        }
    }
}

/// A bank account of the budget.
#[derive(Debug, Clone, PartialEq, Eq)]
pub struct BankAccount {
    pub id: u128,
    pub account_number: String,
    pub description: String,
    pub currency: String,
    pub balance: Money,
}

/// The mathematical value of a bank account.
pub struct BankAccountView {
    pub id: u128,
    pub account_number: Seq<char>,
    pub description: Seq<char>,
    pub currency: Seq<char>,
    pub balance: Money,
}

impl View for BankAccount {
    type V = BankAccountView;

    open spec fn view(&self) -> BankAccountView {
        BankAccountView {
            id: self.id,
            account_number: self.account_number@,
            description: self.description@,
            currency: self.currency@,
            balance: self.balance,
        }
    }
}

/// A transaction read from a bank statement.
#[derive(Debug)]
pub struct BankTransaction {
    pub id: u128,
    pub account_number: String,
    pub amount: Money,
    pub description: String,
    pub date: UtcDateTime,
    pub budget_item_id: Option<u128>,
    pub balance: Money,
}

/// The mathematical value of a bank transaction.
pub struct BankTransactionView {
    pub id: u128,
    pub account_number: Seq<char>,
    pub amount: Money,
    pub description: Seq<char>,
    pub date: UtcDateTime,
    pub budget_item_id: Option<u128>,
    pub balance: Money,
}

impl View for BankTransaction {
    type V = BankTransactionView;

    open spec fn view(&self) -> BankTransactionView {
        BankTransactionView {
            id: self.id,
            account_number: self.account_number@,
            amount: self.amount,
            description: self.description@,
            date: self.date,
            budget_item_id: self.budget_item_id,
            balance: self.balance,
        }
    }
}

impl PartialEq for BankTransaction {
    fn eq(&self, other: &Self) -> (r: bool) {
        self.amount == other.amount && self.description == other.description && self.date
            == other.date
    }
}

impl vstd::std_specs::cmp::PartialEqSpecImpl for BankTransaction {
    open spec fn obeys_eq_spec() -> bool {
        true
    }

    open spec fn eq_spec(&self, other: &Self) -> bool {
        self.amount == other.amount && self.description@ == other.description@ && self.date
            == other.date
    }
}

impl BankTransaction {
    /// A new transaction, not yet connected to any budget item.
    pub fn new(
        id: u128,
        account_number: &str,
        amount: Money,
        balance: Money,
        description: &str,
        date: UtcDateTime,
    ) -> (tx: BankTransaction)
        ensures
            tx.id == id,
            tx.account_number@ == account_number@,
            tx.amount == amount,
            tx.balance == balance,
            tx.description@ == description@,
            tx.date == date,
            tx.budget_item_id is None,
    {
        BankTransaction {
            id,
            account_number: account_number.to_owned(),
            amount,
            balance,
            description: description.to_owned(),
            date,
            budget_item_id: None,
        }
    }

    /// The content hash that identifies duplicates.
    pub open spec fn spec_hash(&self) -> u64 {
        transaction_hash_of(
            self.amount,
            self.balance,
            self.account_number@,
            self.description@,
            self.date,
        )
    }

    /// The content hash of the transaction: amount, balance, account
    /// number, description and date.
    pub fn get_hash(&self) -> (h: u64)
        requires
            self.date.wf(),
        ensures
            h == self.spec_hash(),
    {
        get_transaction_hash(
            &self.amount,
            &self.balance,
            self.account_number.as_str(),
            self.description.as_str(),
            &self.date,
        )
    }
}

/// The value `std::hash::DefaultHasher` gives after hashing, in order, the
/// amount, the balance, the account number, the description and the date
/// of a transaction.
pub uninterp spec fn transaction_hash_of(
    amount: Money,
    balance: Money,
    account_number: Seq<char>,
    description: Seq<char>,
    date: UtcDateTime,
) -> u64;

/// Hashes the identifying content of a transaction with
/// `std::hash::DefaultHasher::new()`, feeding it the amount, the balance,
/// the account number, the description and the date (as a
/// `chrono::DateTime<Utc>`) through their `Hash` impls, then `finish`.
/// `DefaultHasher::new()` starts from fixed keys, so equal content gives
/// equal hashes; the contract names the value and claims nothing else of
/// it (which numbers come out is up to the standard library's hasher).
#[verifier::external_body]
pub fn get_transaction_hash(
    amount: &Money,
    balance: &Money,
    account_number: &str,
    description: &str,
    date: &UtcDateTime,
) -> (h: u64)
    requires
        date.wf(),
    ensures
        h == transaction_hash_of(*amount, *balance, account_number@, description@, *date),
{
    let mut hasher = std::hash::DefaultHasher::new();
    amount.hash(&mut hasher);
    balance.hash(&mut hasher);
    account_number.hash(&mut hasher);
    description.hash(&mut hasher);
    let day = chrono::NaiveDate::from_ymd_opt(date.year, date.month, date.day).unwrap();
    let time = day.and_hms_nano_opt(date.hour, date.minute, date.second, date.nanosecond).unwrap();
    time.and_utc().hash(&mut hasher);
    hasher.finish()
}

/// Calls `HashMap::get_mut`: a mutable reference to the value of a key,
/// through which the map is updated.
#[verifier::external_body]
fn map_get_mut<'a, V>(m: &'a mut HashMap<u128, V>, k: &u128) -> (r: Option<&'a mut V>)
    ensures
        match r {
            Some(v) => {
                &&& old(m)@.contains_key(*k)
                &&& *v == old(m)@[*k]
                &&& final(m)@ == old(m)@.insert(*k, *final(v))
            },
            None => {
                &&& !old(m)@.contains_key(*k)
                &&& final(m)@ == old(m)@
            },
        },
{
    m.get_mut(k)
}

/// Budget items by id, with an index of the items inserted per budgeting
/// type. The index has one list per budgeting type, each in a field of its
/// own: a `HashMap` keyed by `BudgetingType` (an enum of this crate, with a
/// derived `Hash`) gets no key model from vstd, so nothing could be proved
/// of its lookups. The lists hold copies of the items, as the shared
/// `Arc`s of a store behave once an item is changed through `get_mut`
/// (`Arc::make_mut` copies it).
#[derive(Debug, Clone)]
pub struct BudgetItemStore {
    items: HashMap<u128, BudgetItem>,
    income: Option<Vec<BudgetItem>>,
    expense: Option<Vec<BudgetItem>>,
    savings: Option<Vec<BudgetItem>>,
}

/// The values of a sequence of items.
pub open spec fn item_views(s: Seq<BudgetItem>) -> Seq<BudgetItemView> {
    s.map_values(|x: BudgetItem| x@)
}

/// The values of a map of items.
pub open spec fn item_map_views(m: Map<u128, BudgetItem>) -> Map<u128, BudgetItemView> {
    m.map_values(|x: BudgetItem| x@)
}

/// Inserting an item into a map inserts its value into the map of values.
pub broadcast proof fn lemma_item_map_views_insert(m: Map<u128, BudgetItem>, k: u128, v: BudgetItem)
    ensures
        #[trigger] item_map_views(m.insert(k, v)) == item_map_views(m).insert(k, v@),
{
    assert(item_map_views(m.insert(k, v)) =~= item_map_views(m).insert(k, v@));
}

/// The index entry of one budgeting type (`None` when no item of that type
/// was ever inserted).
pub open spec fn index_view(v: Option<Vec<BudgetItem>>) -> Option<Seq<BudgetItemView>> {
    match v {
        Some(v) => Some(item_views(v@)),
        None => None,
    }
}

/// An index entry after an item was added to it.
pub open spec fn index_with(entry: Option<Seq<BudgetItemView>>, item: BudgetItemView) -> Option<
    Seq<BudgetItemView>,
> {
    match entry {
        Some(s) => Some(s.push(item)),
        None => Some(seq![item]),
    }
}

/// Items whose id differs from `id`.
pub open spec fn id_differs(id: u128) -> spec_fn(BudgetItemView) -> bool {
    |x: BudgetItemView| x.id != id
}

/// An index entry after every item with the given id was removed from it.
pub open spec fn index_without(entry: Option<Seq<BudgetItemView>>, id: u128) -> Option<
    Seq<BudgetItemView>,
> {
    match entry {
        Some(s) => Some(s.filter(id_differs(id))),
        None => None,
    }
}

/// The items of an index entry (none when the entry is missing).
pub open spec fn entry_items(e: Option<Seq<BudgetItemView>>) -> Seq<BudgetItemView> {
    match e {
        Some(s) => s,
        None => Seq::empty(),
    }
}

/// The index entry of budgeting type `t` lists exactly the stored items of
/// that type, each once, as they are stored.
pub open spec fn index_consistent_for(
    items: Map<u128, BudgetItemView>,
    e: Option<Seq<BudgetItemView>>,
    t: BudgetingType,
) -> bool {
    let s = entry_items(e);
    &&& forall|i: int|
        0 <= i < s.len() ==> (#[trigger] s[i]).item_type == t && items.contains_key(s[i].id)
            && items[s[i].id] == s[i]
    &&& forall|i: int, j: int| 0 <= i < j < s.len() ==> (#[trigger] s[i]).id != (#[trigger] s[j]).id
    &&& forall|id: u128|
        #[trigger] items.contains_key(id) && items[id].item_type == t ==> exists|i: int|
            0 <= i < s.len() && (#[trigger] s[i]).id == id
}

/// Adding a new item keeps an index entry consistent.
proof fn lemma_add_keeps_index(
    items: Map<u128, BudgetItemView>,
    e: Option<Seq<BudgetItemView>>,
    t: BudgetingType,
    item: BudgetItemView,
)
    requires
        index_consistent_for(items, e, t),
        !items.contains_key(item.id),
    ensures
        index_consistent_for(
            items.insert(item.id, item),
            if t == item.item_type {
                index_with(e, item)
            } else {
                e
            },
            t,
        ),
{
    let items2 = items.insert(item.id, item);
    let s = entry_items(e);
    if t == item.item_type {
        let s2 = entry_items(index_with(e, item));
        assert(s2 =~= s.push(item));
        assert forall|id: u128| #[trigger] items2.contains_key(id) && items2[id].item_type == t implies exists|i: int|
            0 <= i < s2.len() && (#[trigger] s2[i]).id == id by {
            if id == item.id {
                assert(s2[s.len() as int].id == id);
            } else {
                let i = choose|i: int| 0 <= i < s.len() && (#[trigger] s[i]).id == id;
                assert(s2[i].id == id);
            }
        }
        assert forall|i: int, j: int| 0 <= i < j < s2.len() implies (#[trigger] s2[i]).id != (#[trigger] s2[j]).id by {
            if j == s.len() {
                assert(items.contains_key(s[i].id));
            } else {
                assert(s2[i] == s[i] && s2[j] == s[j]);
            }
        }
        assert forall|i: int| 0 <= i < s2.len() implies (#[trigger] s2[i]).item_type == t && items2.contains_key(s2[i].id)
            && items2[s2[i].id] == s2[i] by {
            if i < s.len() {
                assert(s2[i] == s[i]);
                assert(items.contains_key(s[i].id));
            }
        }
    } else {
        assert forall|id: u128| #[trigger] items2.contains_key(id) && items2[id].item_type == t implies exists|i: int|
            0 <= i < s.len() && (#[trigger] s[i]).id == id by {
            assert(id != item.id);
            assert(items.contains_key(id));
        }
        assert forall|i: int| 0 <= i < s.len() implies (#[trigger] s[i]).item_type == t && items2.contains_key(s[i].id)
            && items2[s[i].id] == s[i] by {
            assert(items.contains_key(s[i].id));
        }
    }
}

/// Removing a stored item keeps an index entry consistent.
proof fn lemma_remove_keeps_index(
    items: Map<u128, BudgetItemView>,
    e: Option<Seq<BudgetItemView>>,
    t: BudgetingType,
    id: u128,
)
    requires
        index_consistent_for(items, e, t),
        items.contains_key(id),
    ensures
        index_consistent_for(
            items.remove(id),
            if t == items[id].item_type {
                index_without(e, id)
            } else {
                e
            },
            t,
        ),
{
    let items2 = items.remove(id);
    let s = entry_items(e);
    let p = id_differs(id);
    if t == items[id].item_type {
        let s2 = entry_items(index_without(e, id));
        assert(s2 == s.filter(p)) by {
            reveal(Seq::filter);
            if e is None {
                assert(Seq::<BudgetItemView>::empty().filter(p) =~= Seq::<BudgetItemView>::empty());
            }
        }
        assert forall|i: int| 0 <= i < s2.len() implies (#[trigger] s2[i]).item_type == t && items2.contains_key(s2[i].id)
            && items2[s2[i].id] == s2[i] by {
            s.lemma_filter_pred(p, i);
            assert(s2.contains(s2[i]));
            s.lemma_filter_contains_rev(p, s2[i]);
            let k = choose|k: int| 0 <= k < s.len() && s[k] == s2[i];
            assert(s[k].item_type == t);
        }
        lemma_filter_keeps_distinct_ids(s, p);
        assert forall|x: u128| #[trigger] items2.contains_key(x) && items2[x].item_type == t implies exists|i: int|
            0 <= i < s2.len() && (#[trigger] s2[i]).id == x by {
            assert(items.contains_key(x) && x != id);
            let k = choose|k: int| 0 <= k < s.len() && (#[trigger] s[k]).id == x;
            s.lemma_filter_contains(p, k);
            let i = choose|i: int| 0 <= i < s2.len() && s2[i] == s[k];
            assert(s2[i].id == x);
        }
    } else {
        assert forall|i: int| 0 <= i < s.len() implies (#[trigger] s[i]).item_type == t && items2.contains_key(s[i].id)
            && items2[s[i].id] == s[i] by {
            assert(items.contains_key(s[i].id));
            if s[i].id == id {
                assert(items[id].item_type == t);
            }
        }
        assert forall|x: u128| #[trigger] items2.contains_key(x) && items2[x].item_type == t implies exists|i: int|
            0 <= i < s.len() && (#[trigger] s[i]).id == x by {
            assert(items.contains_key(x));
        }
    }
}

/// Filtering an index keeps its ids distinct.
proof fn lemma_filter_keeps_distinct_ids(s: Seq<BudgetItemView>, p: spec_fn(BudgetItemView) -> bool)
    requires
        forall|i: int, j: int| 0 <= i < j < s.len() ==> (#[trigger] s[i]).id != (#[trigger] s[j]).id,
    ensures
        forall|i: int, j: int|
            0 <= i < j < s.filter(p).len() ==> (#[trigger] s.filter(p)[i]).id != (#[trigger] s.filter(p)[j]).id,
    decreases s.len(),
{
    reveal(Seq::filter);
    if s.len() > 0 {
        let rest = s.drop_last();
        lemma_filter_keeps_distinct_ids(rest, p);
        if p(s.last()) {
            let f = rest.filter(p);
            let g = f.push(s.last());
            assert(s.filter(p) == g);
            assert forall|i: int, j: int| 0 <= i < j < g.len() implies (#[trigger] g[i]).id != (#[trigger] g[j]).id by {
                if j == f.len() {
                    assert(f.contains(g[i]));
                    rest.lemma_filter_contains_rev(p, g[i]);
                    let m = choose|m: int| 0 <= m < rest.len() && rest[m] == g[i];
                    assert(s[m] == rest[m]);
                    assert(s[s.len() - 1] == s.last());
                } else {
                    assert(g[i] == f[i] && g[j] == f[j]);
                }
            }
        } else {
            assert(s.filter(p) == rest.filter(p));
        }
    }
}

impl BudgetItemStore {
    /// The items by id.
    pub closed spec fn items(&self) -> Map<u128, BudgetItemView> {
        item_map_views(self.items@)
    }

    /// The index entry of a budgeting type.
    pub closed spec fn by_type(&self, t: BudgetingType) -> Option<Seq<BudgetItemView>> {
        match t {
            BudgetingType::Income => index_view(self.income),
            BudgetingType::Expense => index_view(self.expense),
            BudgetingType::Savings => index_view(self.savings),
        }
    }

    /// The index of every budgeting type lists exactly the stored items
    /// of that type, each once, as they are stored. Adding and removing
    /// keep this; changing an item through `get_mut` does not update the
    /// copies in the index.
    pub open spec fn index_consistent(&self) -> bool {
        forall|t: BudgetingType| #[trigger] index_consistent_for(self.items(), self.by_type(t), t)
    }

    /// An empty store.
    pub fn new() -> (s: BudgetItemStore)
        ensures
            s.items() == Map::<u128, BudgetItemView>::empty(),
            forall|t: BudgetingType| #[trigger] s.by_type(t) is None,
            s.index_consistent(),
    {
        let s = BudgetItemStore { items: HashMap::new(), income: None, expense: None, savings: None };
        assert(s.items() =~= Map::<u128, BudgetItemView>::empty());
        s
    }

    /// The number of items.
    pub fn len(&self) -> (n: usize)
        ensures
            n == self.items().len(),
    {
        assert(self.items().dom() =~= self.items@.dom());
        self.items.len()
    }

    /// Whether the store holds no item.
    pub fn is_empty(&self) -> (b: bool)
        ensures
            b == (self.items().len() == 0),
    {
        assert(self.items().dom() =~= self.items@.dom());
        self.items.is_empty()
    }

    /// Adds a copy of the item unless an item with its id is already
    /// stored; says whether it was added.
    pub fn insert(&mut self, item: &BudgetItem) -> (added: bool)
        ensures
            added == !old(self).items().contains_key(item.id),
            added ==> final(self).items() == old(self).items().insert(item.id, item@),
            final(self).items().len() == old(self).items().len() + if added {
                1int
            } else {
                0int
            },
            added ==> forall|t: BudgetingType| #[trigger]
                final(self).by_type(t) == if t == item.item_type {
                    index_with(old(self).by_type(t), item@)
                } else {
                    old(self).by_type(t)
                },
            !added ==> final(self).items() == old(self).items() && forall|t: BudgetingType|
                #[trigger] final(self).by_type(t) == old(self).by_type(t),
            old(self).index_consistent() ==> final(self).index_consistent(),
    {
        proof {
            assert(old(self).items().dom() =~= old(self).items@.dom());
        }
        if !self.items.contains_key(&item.id) {
            let copy = item.clone();
            self.items.insert(item.id, copy);
            let entry = match item.item_type {
                BudgetingType::Income => &mut self.income,
                BudgetingType::Expense => &mut self.expense,
                BudgetingType::Savings => &mut self.savings,
            };
            match entry {
                Some(v) => v.push(item.clone()),
                None => {
                    let mut v = Vec::new();
                    v.push(item.clone());
                    *entry = Some(v);
                },
            }
            proof {
                assert(self.items() =~= old(self).items().insert(item.id, item@));
                assert forall|t: BudgetingType| #[trigger] self.by_type(t) == if t == item.item_type {
                    index_with(old(self).by_type(t), item@)
                } else {
                    old(self).by_type(t)
                } by {
                    if t == item.item_type {
                        if let Some(s) = old(self).by_type(t) {
                            assert(self.by_type(t)->0 =~= s.push(item@));
                        } else {
                            assert(self.by_type(t)->0 =~= seq![item@]);
                        }
                    }
                }
                if old(self).index_consistent() {
                    assert forall|t: BudgetingType| #[trigger] index_consistent_for(self.items(), self.by_type(t), t) by {
                        lemma_add_keeps_index(old(self).items(), old(self).by_type(t), t, item@);
                    }
                }
            }
            true
        } else {
            false
        }
    }

    /// Removes the item with the given id from the store and from the index
    /// entry of its (current) type; says whether it was stored.
    pub fn remove(&mut self, id: u128) -> (removed: bool)
        ensures
            removed == old(self).items().contains_key(id),
            final(self).items() == old(self).items().remove(id),
            final(self).items().len() == old(self).items().len() - if removed {
                1int
            } else {
                0int
            },
            removed ==> forall|t: BudgetingType| #[trigger]
                final(self).by_type(t) == if t == old(self).items()[id].item_type {
                    index_without(old(self).by_type(t), id)
                } else {
                    old(self).by_type(t)
                },
            !removed ==> forall|t: BudgetingType| #[trigger]
                final(self).by_type(t) == old(self).by_type(t),
            old(self).index_consistent() ==> final(self).index_consistent(),
    {
        proof {
            assert(old(self).items().dom() =~= old(self).items@.dom());
        }
        if self.items.contains_key(&id) {
            let item = self.items.remove(&id);
            let t = match item {
                Some(it) => it.item_type,
                None => BudgetingType::Income,
            };
            let entry = match t {
                BudgetingType::Income => &mut self.income,
                BudgetingType::Expense => &mut self.expense,
                BudgetingType::Savings => &mut self.savings,
            };
            match entry {
                Some(v) => {
                    retain_other_ids(v, id);
                },
                None => {},
            }
            proof {
                assert(self.items() =~= old(self).items().remove(id));
                assert forall|u: BudgetingType| #[trigger] self.by_type(u) == if u == old(self).items()[id].item_type {
                    index_without(old(self).by_type(u), id)
                } else {
                    old(self).by_type(u)
                } by {}
                if old(self).index_consistent() {
                    assert forall|u: BudgetingType| #[trigger] index_consistent_for(self.items(), self.by_type(u), u) by {
                        lemma_remove_keeps_index(old(self).items(), old(self).by_type(u), u, id);
                    }
                }
            }
            true
        } else {
            assert(old(self).items().remove(id) =~= old(self).items());
            false
        }
    }

    /// A mutable reference to the item with the given id; the index keeps
    /// the copies made when items were inserted.
    pub fn get_mut(&mut self, id: &u128) -> (r: Option<&mut BudgetItem>)
        ensures
            match r {
                Some(item) => {
                    &&& old(self).items().contains_key(*id)
                    &&& item@ == old(self).items()[*id]
                    &&& final(self).items() == old(self).items().insert(*id, final(item)@)
                },
                None => {
                    &&& !old(self).items().contains_key(*id)
                    &&& final(self).items() == old(self).items()
                },
            },
            forall|t: BudgetingType| #[trigger] final(self).by_type(t) == old(self).by_type(t),
    {
        proof {
            broadcast use lemma_item_map_views_insert;
        }
        map_get_mut(&mut self.items, id)
    }

    /// The item with the given id.
    pub fn get(&self, id: &u128) -> (r: Option<&BudgetItem>)
        ensures
            match r {
                Some(item) => self.items().contains_key(*id) && item@ == self.items()[*id],
                None => !self.items().contains_key(*id),
            },
    {
        self.items.get(id)
    }

    /// Whether an item with the given id is stored.
    pub fn contains(&self, id: &u128) -> (b: bool)
        ensures
            b == self.items().contains_key(*id),
    {
        self.items.contains_key(id)
    }
}

/// The values of id-keyed entries.
pub open spec fn entry_views(s: Seq<(u128, BudgetItem)>) -> Seq<(u128, BudgetItemView)> {
    s.map_values(|e: (u128, BudgetItem)| (e.0, e.1@))
}

/// The map that inserting the entries in order gives: a later entry for
/// an id replaces an earlier one.
pub open spec fn entries_map(s: Seq<(u128, BudgetItemView)>) -> Map<u128, BudgetItemView>
    decreases s.len(),
{
    if s.len() == 0 {
        Map::empty()
    } else {
        entries_map(s.drop_last()).insert(s.last().0, s.last().1)
    }
}

/// Items of the given budgeting type.
pub open spec fn of_type(t: BudgetingType) -> spec_fn(BudgetItemView) -> bool {
    |x: BudgetItemView| x.item_type == t
}

/// The index entry that the entries give a budgeting type: its items in
/// entry order, or `None` when there are none.
pub open spec fn entries_index(s: Seq<(u128, BudgetItemView)>, t: BudgetingType) -> Option<
    Seq<BudgetItemView>,
> {
    let items = s.map_values(|e: (u128, BudgetItemView)| e.1).filter(of_type(t));
    if items.len() == 0 {
        None
    } else {
        Some(items)
    }
}

impl BudgetItemStore {
    /// Rebuilds a store from its stored entries (item ids with their
    /// items), in the order given: the map by id, and the index of each
    /// budgeting type with every item of that type.
    pub fn from_entries(entries: &Vec<(u128, BudgetItem)>) -> (s: BudgetItemStore)
        ensures
            s.items() == entries_map(entry_views(entries@)),
            forall|t: BudgetingType| #[trigger] s.by_type(t) == entries_index(entry_views(entries@), t),
    {
        let ghost ev = entry_views(entries@);
        let mut store = BudgetItemStore::new();
        let mut i: usize = 0;
        proof {
            reveal(Seq::filter);
            assert(ev.take(0) =~= Seq::<(u128, BudgetItemView)>::empty());
            assert forall|t: BudgetingType| #[trigger] store.by_type(t) == entries_index(ev.take(0), t) by {
                assert(ev.take(0).map_values(|e: (u128, BudgetItemView)| e.1) =~= Seq::<BudgetItemView>::empty());
            }
        }
        while i < entries.len()
            invariant
                ev == entry_views(entries@),
                0 <= i <= entries@.len(),
                store.items() == entries_map(ev.take(i as int)),
                forall|t: BudgetingType| #[trigger] store.by_type(t) == entries_index(ev.take(i as int), t),
            decreases entries@.len() - i,
        {
            let id = entries[i].0;
            let item = &entries[i].1;
            let ghost before = store;
            proof {
                broadcast use lemma_item_map_views_insert;
                assert(ev.take(i as int + 1).drop_last() =~= ev.take(i as int));
                assert(ev.take(i as int + 1).last() == (id, item@));
            }
            store.items.insert(id, item.clone());
            let entry = match item.item_type {
                BudgetingType::Income => &mut store.income,
                BudgetingType::Expense => &mut store.expense,
                BudgetingType::Savings => &mut store.savings,
            };
            match entry {
                Some(v) => v.push(item.clone()),
                None => {
                    let mut v = Vec::new();
                    v.push(item.clone());
                    *entry = Some(v);
                },
            }
            proof {
                let vals_before = ev.take(i as int).map_values(|e: (u128, BudgetItemView)| e.1);
                let vals_after = ev.take(i as int + 1).map_values(|e: (u128, BudgetItemView)| e.1);
                assert(vals_after =~= vals_before.push(item@));
                assert forall|t: BudgetingType| #[trigger] store.by_type(t) == entries_index(ev.take(i as int + 1), t) by {
                    vals_before.lemma_filter_push(item@, of_type(t));
                    if t == item.item_type {
                        if let Some(s) = before.by_type(t) {
                            assert(store.by_type(t)->0 =~= s.push(item@));
                        } else {
                            assert(store.by_type(t)->0 =~= seq![item@]);
                            assert(vals_before.filter(of_type(t)).len() == 0);
                            assert(vals_before.filter(of_type(t)).push(item@) =~= seq![item@]);
                        }
                    }
                }
            }
            i = i + 1;
        }
        proof {
            assert(ev.take(entries@.len() as int) =~= ev);
        }
        store
    }
}

/// Bank transactions by id, with the content hashes of every transaction
/// inserted, so that a transaction seen before is refused.
#[derive(Debug)]
pub struct BankTransactionStore {
    all: HashSet<u64>,
    by_id: HashMap<u128, BankTransaction>,
}

impl BankTransactionStore {
    /// The content hashes of the stored transactions.
    pub closed spec fn hashes(&self) -> Set<u64> {
        self.all@
    }

    /// The transactions by id.
    pub closed spec fn transactions(&self) -> Map<u128, BankTransaction> {
        self.by_id@
    }

    /// Finitely many hashes are stored, and every stored transaction has a
    /// date `chrono` can represent.
    pub open spec fn wf(&self) -> bool {
        &&& self.hashes().finite()
        &&& forall|id: u128| #[trigger]
            self.transactions().contains_key(id) ==> self.transactions()[id].date.wf()
    }

    /// An empty store.
    pub fn new() -> (s: BankTransactionStore)
        ensures
            s.wf(),
            s.hashes() == Set::<u64>::empty(),
            s.transactions() == Map::<u128, BankTransaction>::empty(),
    {
        BankTransactionStore { all: HashSet::new(), by_id: HashMap::new() }
    }

    /// The number of distinct content hashes stored.
    pub fn len(&self) -> (n: usize)
        ensures
            n == self.hashes().len(),
    {
        self.all.len()
    }

    /// Whether no hash is stored.
    pub fn is_empty(&self) -> (b: bool)
        ensures
            b == (self.hashes().len() == 0),
    {
        self.all.len() == 0
    }

    /// Stores the transaction unless one with the same content hash was
    /// stored before; says whether it was stored.
    pub fn insert(&mut self, transaction: BankTransaction) -> (added: bool)
        requires
            old(self).wf(),
            transaction.date.wf(),
        ensures
            final(self).wf(),
            added == !old(self).hashes().contains(transaction.spec_hash()),
            final(self).hashes() == old(self).hashes().insert(transaction.spec_hash()),
            final(self).hashes().len() == old(self).hashes().len() + if added {
                1int
            } else {
                0int
            },
            added ==> final(self).transactions() == old(self).transactions().insert(
                transaction.id,
                transaction,
            ),
            !added ==> final(self).transactions() == old(self).transactions(),
    {
        let h = transaction.get_hash();
        if self.all.insert(h) {
            self.by_id.insert(transaction.id, transaction);
            true
        } else {
            false
        }
    }

    /// Removes the transaction with the given id and its content hash;
    /// says whether a hash was removed.
    pub fn remove(&mut self, id: u128) -> (removed: bool)
        requires
            old(self).wf(),
        ensures
            final(self).wf(),
            final(self).transactions() == old(self).transactions().remove(id),
            old(self).transactions().contains_key(id) ==> {
                let h = old(self).transactions()[id].spec_hash();
                &&& final(self).hashes() == old(self).hashes().remove(h)
                &&& removed == old(self).hashes().contains(h)
            },
            !old(self).transactions().contains_key(id) ==> {
                &&& final(self).hashes() == old(self).hashes()
                &&& !removed
            },
            final(self).hashes().len() == old(self).hashes().len() - if removed {
                1int
            } else {
                0int
            },
    {
        match self.by_id.remove(&id) {
            Some(transaction) => {
                let h = transaction.get_hash();
                self.all.remove(&h)
            },
            None => {
                assert(old(self).transactions().remove(id) =~= old(self).transactions());
                false
            },
        }
    }

    /// Whether a transaction with this content hash was stored.
    pub fn check_hash(&self, hash: &u64) -> (b: bool)
        ensures
            b == self.hashes().contains(*hash),
    {
        self.all.contains(hash)
    }

    /// Whether a transaction with this content hash can still be stored.
    pub fn can_insert(&self, hash: &u64) -> (b: bool)
        ensures
            b == !self.hashes().contains(*hash),
    {
        !self.check_hash(hash)
    }

    /// A mutable reference to the transaction with the given id.
    pub fn get_mut(&mut self, id: &u128) -> (r: Option<&mut BankTransaction>)
        ensures
            final(self).hashes() == old(self).hashes(),
            match r {
                Some(tx) => {
                    &&& old(self).transactions().contains_key(*id)
                    &&& *tx == old(self).transactions()[*id]
                    &&& final(self).transactions() == old(self).transactions().insert(
                        *id,
                        *final(tx),
                    )
                },
                None => {
                    &&& !old(self).transactions().contains_key(*id)
                    &&& final(self).transactions() == old(self).transactions()
                },
            },
    {
        map_get_mut(&mut self.by_id, id)
    }

    /// Whether a transaction with the given id is stored.
    pub fn contains(&self, id: &u128) -> (b: bool)
        ensures
            b == self.transactions().contains_key(*id),
    {
        self.by_id.contains_key(id)
    }
}

/// Law: once a transaction is stored, any transaction with the same
/// content (amount, balance, account number, description and date) is
/// refused, whatever its id.
pub proof fn law_same_content_is_a_duplicate(first: BankTransaction, second: BankTransaction)
    requires
        first.amount == second.amount,
        first.balance == second.balance,
        first.account_number@ == second.account_number@,
        first.description@ == second.description@,
        first.date == second.date,
    ensures
        first.spec_hash() == second.spec_hash(),
{
}

/// Law: removing a transaction that was just stored restores the store:
/// inserting a transaction whose content and id are new and then removing
/// it by id gives back the hashes and transactions of before.
pub proof fn law_remove_undoes_insert(
    s0: BankTransactionStore,
    s1: BankTransactionStore,
    s2: BankTransactionStore,
    t: BankTransaction,
)
    requires
        !s0.hashes().contains(t.spec_hash()),
        !s0.transactions().contains_key(t.id),
        s1.hashes() == s0.hashes().insert(t.spec_hash()),
        s1.transactions() == s0.transactions().insert(t.id, t),
        s2.transactions() == s1.transactions().remove(t.id),
        s2.hashes() == s1.hashes().remove(s1.transactions()[t.id].spec_hash()),
    ensures
        s2.hashes() == s0.hashes(),
        s2.transactions() == s0.transactions(),
{
    assert(s2.hashes() =~= s0.hashes());
    assert(s2.transactions() =~= s0.transactions());
}

/// Law: removing a budget item that was just added restores the items by
/// id, and leaves the index of the other budgeting types as it was.
pub proof fn law_remove_undoes_add_item(
    s0: BudgetItemStore,
    s1: BudgetItemStore,
    s2: BudgetItemStore,
    item: BudgetItemView,
)
    requires
        !s0.items().contains_key(item.id),
        s1.items() == s0.items().insert(item.id, item),
        forall|t: BudgetingType| t != item.item_type ==> #[trigger] s1.by_type(t) == s0.by_type(t),
        s2.items() == s1.items().remove(item.id),
        forall|t: BudgetingType| t != s1.items()[item.id].item_type ==> #[trigger] s2.by_type(t) == s1.by_type(t),
    ensures
        s2.items() == s0.items(),
        forall|t: BudgetingType| t != item.item_type ==> #[trigger] s2.by_type(t) == s0.by_type(t),
{
    assert(s2.items() =~= s0.items());
}

/// Keeps, in order, the items whose id differs from `id`.
fn retain_other_ids(v: &mut Vec<BudgetItem>, id: u128)
    ensures
        item_views(final(v)@) == item_views(old(v)@).filter(id_differs(id)),
{
    let ghost pred = id_differs(id);
    let ghost orig = item_views(v@);
    let mut rest: Vec<BudgetItem> = Vec::new();
    std::mem::swap(&mut rest, v);
    let mut kept: Vec<BudgetItem> = Vec::new();
    let ghost mut i: int = 0;
    assert(orig.take(0) =~= Seq::<BudgetItemView>::empty());
    assert(item_views(kept@) =~= Seq::<BudgetItemView>::empty());
    assert(item_views(rest@) =~= orig.skip(0));
    proof {
        reveal(Seq::filter);
    }
    while rest.len() > 0
        invariant
            0 <= i <= orig.len(),
            item_views(rest@) == orig.skip(i),
            item_views(kept@) == orig.take(i).filter(pred),
            pred == id_differs(id),
        decreases rest.len(),
    {
        assert(item_views(rest@).len() == rest@.len());
        let ghost rest_before = rest@;
        let x = rest.remove(0);
        proof {
            assert(item_views(rest_before)[0] == x@);
            reveal(Seq::filter);
            assert(orig.skip(i)[0] == x@);
            assert(orig.take(i + 1).drop_last() =~= orig.take(i));
            assert(orig.take(i + 1).last() == x@);
            assert(rest@ == rest_before.remove(0));
            assert forall|j: int| 0 <= j < rest@.len() implies #[trigger] item_views(rest@)[j]
                == orig.skip(i + 1)[j] by {
                assert(rest@[j] == rest_before[j + 1]);
                assert(item_views(rest_before)[j + 1] == orig.skip(i)[j + 1]);
            }
            assert(item_views(rest@) =~= orig.skip(i + 1));
        }
        if x.id != id {
            let ghost before = kept@;
            kept.push(x);
            assert(item_views(kept@) =~= item_views(before).push(x@));
        }
        proof {
            i = i + 1;
        }
    }
    assert(orig.take(i) =~= orig);
    *v = kept;
}

} // verus!
