//! Deleting a tagging rule: the rule goes, and the transactions it tagged
//! that no remaining rule of the same tag still matches lose their tag.

use crate::auto_budget::{Budget, BudgetTransaction, MatchRule, Period};
use crate::framework::{CommandError, CommandErrorView};
use crate::snapshot::period_transactions;
use vstd::prelude::*;

verus! {

/// An event of a budget recorded by the rule commands.
#[derive(Debug, Clone, Copy, PartialEq, Eq, Structural)]
pub enum BudgetEvent {
    RuleDeleted { rule_id: u128 },
    TransactionUntagged { tx_id: u128 },
}

/// The index of the first rule with the given id.
pub open spec fn first_rule(rules: Seq<MatchRule>, id: u128) -> Option<int>
    decreases rules.len(),
{
    if rules.len() == 0 {
        None
    } else {
        match first_rule(rules.drop_last(), id) {
            Some(i) => Some(i),
            None => if rules.last().id == id {
                Some(rules.len() - 1)
            } else {
                None
            },
        }
    }
}

/// The transaction loses its tag: it carries the deleted rule's tag, is
/// not ignored, and no remaining rule of that tag still matches it.
pub open spec fn loses_tag(t: BudgetTransaction, tag: Option<u128>, still_matched: Seq<u128>) -> bool {
    &&& tag is Some
    &&& t.tag_id == tag
    &&& !t.ignored
    &&& !still_matched.contains(t.id)
}

/// The transaction after the deletion.
pub open spec fn transaction_after_delete(
    t: BudgetTransaction,
    u: BudgetTransaction,
    tag: Option<u128>,
    still_matched: Seq<u128>,
) -> bool {
    if loses_tag(t, tag, still_matched) {
        u == BudgetTransaction { tag_id: None, ..t }
    } else {
        u == t
    }
}

/// The events of the transactions that lose their tag, in order.
pub open spec fn untag_events(txs: Seq<BudgetTransaction>, tag: Option<u128>, still_matched: Seq<u128>) -> Seq<
    BudgetEvent,
>
    decreases txs.len(),
{
    if txs.len() == 0 {
        Seq::empty()
    } else {
        let before = untag_events(txs.drop_last(), tag, still_matched);
        if loses_tag(txs.last(), tag, still_matched) {
            before.push(BudgetEvent::TransactionUntagged { tx_id: txs.last().id })
        } else {
            before
        }
    }
}

/// Whether `id` is among `ids`.
fn contains_id(ids: &Vec<u128>, id: u128) -> (b: bool)
    ensures
        b == ids@.contains(id),
{
    let mut i: usize = 0;
    while i < ids.len()
        invariant
            0 <= i <= ids@.len(),
            forall|k: int| 0 <= k < i ==> ids@[k] != id,
        decreases ids@.len() - i,
    {
        if ids[i] == id {
            return true;
        }
        i = i + 1;
    }
    false
}

/// The first rule found is one with that id.
proof fn lemma_first_rule_has_id(rules: Seq<MatchRule>, id: u128)
    requires
        first_rule(rules, id) is Some,
    ensures
        0 <= first_rule(rules, id)->0 < rules.len(),
        rules[first_rule(rules, id)->0].id == id,
    decreases rules.len(),
{
    if rules.len() > 0 && first_rule(rules.drop_last(), id) is Some {
        lemma_first_rule_has_id(rules.drop_last(), id);
    }
}

/// The first rule found in a prefix is the first one of the whole.
proof fn lemma_first_rule_prefix(rules: Seq<MatchRule>, id: u128, n: int)
    requires
        0 <= n <= rules.len(),
        first_rule(rules.take(n), id) is Some,
    ensures
        first_rule(rules, id) == first_rule(rules.take(n), id),
    decreases rules.len() - n,
{
    if n < rules.len() {
        assert(rules.take(n + 1).drop_last() =~= rules.take(n));
        lemma_first_rule_prefix(rules, id, n + 1);
    } else {
        assert(rules.take(n) =~= rules);
    }
}

/// Deletes the rule with the given id. When it had a tag, every
/// transaction carrying that tag that is not ignored and is not among
/// `still_matched` (the transactions that a remaining rule of that tag
/// still matches, as the rule matcher decides) loses its tag. Returns the
/// events, the deletion first and then one untagging per transaction in
/// period order; fails, changing nothing, when no rule has that id.
pub fn delete_rule(budget: &mut Budget, rule_id: u128, still_matched: &Vec<u128>) -> (r: Result<
    Vec<BudgetEvent>,
    CommandError,
>)
    ensures
        match first_rule(old(budget).match_rules@, rule_id) {
            None => {
                &&& r matches Err(e) && e@ == CommandErrorView::NotFound("Rule not found"@)
                &&& *final(budget) == *old(budget)
            },
            Some(i) => {
                let tag = old(budget).match_rules@[i].tag_id;
                &&& r matches Ok(events) && events@ == seq![BudgetEvent::RuleDeleted { rule_id }]
                    + untag_events(period_transactions(old(budget).periods@), tag, still_matched@)
                &&& final(budget).match_rules@ == old(budget).match_rules@.remove(i)
                &&& final(budget).id == old(budget).id
                &&& final(budget).name == old(budget).name
                &&& final(budget).currency == old(budget).currency
                &&& final(budget).items == old(budget).items
                &&& final(budget).transaction_hashes == old(budget).transaction_hashes
                &&& final(budget).version == old(budget).version
                &&& final(budget).last_event == old(budget).last_event
                &&& final(budget).periods@.len() == old(budget).periods@.len()
                &&& forall|p: int|
                    0 <= p < old(budget).periods@.len() ==> {
                        &&& (#[trigger] final(budget).periods@[p]).id == old(budget).periods@[p].id
                        &&& final(budget).periods@[p].actual_items == old(budget).periods@[p].actual_items
                        &&& final(budget).periods@[p].transactions@.len()
                            == old(budget).periods@[p].transactions@.len()
                        &&& forall|k: int|
                            0 <= k < old(budget).periods@[p].transactions@.len()
                                ==> transaction_after_delete(
                                old(budget).periods@[p].transactions@[k],
                                #[trigger] final(budget).periods@[p].transactions@[k],
                                tag,
                                still_matched@,
                            )
                    }
            },
        },
{
    let idx = match find_rule(&budget.match_rules, rule_id) {
        Some(i) => i,
        None => {
            return Err(CommandError::NotFound("Rule not found".to_owned()));
        },
    };
    proof {
        lemma_first_rule_has_id(budget.match_rules@, rule_id);
    }
    let ghost old_budget = *budget;
    let tag = budget.match_rules[idx].tag_id;
    let _removed = budget.match_rules.remove(idx);
    let mut events: Vec<BudgetEvent> = Vec::new();
    events.push(BudgetEvent::RuleDeleted { rule_id });
    let ghost all = old_budget.periods@;
    let ghost rules_after = budget.match_rules@;
    let n = budget.periods.len();
    let mut p: usize = 0;
    proof {
        assert(all.take(0) =~= Seq::<Period>::empty());
        assert(untag_events(period_transactions(all.take(0)), tag, still_matched@) =~= Seq::<BudgetEvent>::empty());
        assert(events@ =~= seq![BudgetEvent::RuleDeleted { rule_id }] + untag_events(period_transactions(all.take(0)), tag, still_matched@));
    }
    if tag.is_some() {
        while p < n
            invariant
                n == all.len(),
                tag is Some,
                0 <= p <= n,
                budget.periods@.len() == n,
                budget.match_rules@ == rules_after,
                budget.id == old_budget.id,
                budget.name == old_budget.name,
                budget.currency == old_budget.currency,
                budget.items == old_budget.items,
                budget.transaction_hashes == old_budget.transaction_hashes,
                budget.version == old_budget.version,
                budget.last_event == old_budget.last_event,
                forall|q: int| p <= q < n ==> #[trigger] budget.periods@[q] == all[q],
                forall|q: int|
                    0 <= q < p ==> {
                        &&& (#[trigger] budget.periods@[q]).id == all[q].id
                        &&& budget.periods@[q].actual_items == all[q].actual_items
                        &&& budget.periods@[q].transactions@.len() == all[q].transactions@.len()
                        &&& forall|k: int|
                            0 <= k < all[q].transactions@.len() ==> transaction_after_delete(
                                all[q].transactions@[k],
                                #[trigger] budget.periods@[q].transactions@[k],
                                tag,
                                still_matched@,
                            )
                    },
                events@ == seq![BudgetEvent::RuleDeleted { rule_id }] + untag_events(
                    period_transactions(all.take(p as int)),
                    tag,
                    still_matched@,
                ),
            decreases n - p,
        {
            let ghost base = period_transactions(all.take(p as int));
            let ghost txs = all[p as int].transactions@;
            let ghost frozen = budget.periods@;
            let ghost fixed = *budget;
            proof {
                assert(all.take(p as int + 1).drop_last() =~= all.take(p as int));
                assert(all.take(p as int + 1).last() == all[p as int]);
                assert(base + txs.take(0) =~= base);
                assert(frozen[p as int] == all[p as int]);
            }
            let m = budget.periods[p].transactions.len();
            let mut k: usize = 0;
            while k < m
                invariant
                    tag is Some,
                    m == txs.len(),
                    0 <= k <= m,
                    p < n,
                    n == frozen.len(),
                    budget.periods@.len() == n,
                    budget.match_rules == fixed.match_rules,
                    budget.id == fixed.id,
                    budget.name == fixed.name,
                    budget.currency == fixed.currency,
                    budget.items == fixed.items,
                    budget.transaction_hashes == fixed.transaction_hashes,
                    budget.version == fixed.version,
                    budget.last_event == fixed.last_event,
                    forall|q: int| 0 <= q < n && q != p ==> #[trigger] budget.periods@[q] == frozen[q],
                    budget.periods@[p as int].id == frozen[p as int].id,
                    budget.periods@[p as int].actual_items == frozen[p as int].actual_items,
                    frozen[p as int].transactions@ == txs,
                    budget.periods@[p as int].transactions@.len() == m,
                    forall|j: int| k <= j < m ==> #[trigger] budget.periods@[p as int].transactions@[j] == txs[j],
                    forall|j: int|
                        0 <= j < k ==> transaction_after_delete(
                            txs[j],
                            #[trigger] budget.periods@[p as int].transactions@[j],
                            tag,
                            still_matched@,
                        ),
                    events@ == seq![BudgetEvent::RuleDeleted { rule_id }] + untag_events(
                        base + txs.take(k as int),
                        tag,
                        still_matched@,
                    ),
                decreases m - k,
            {
                proof {
                    assert((base + txs.take(k as int + 1)).drop_last() =~= base + txs.take(k as int));
                    assert((base + txs.take(k as int + 1)).last() == txs[k as int]);
                }
                let t_tag = budget.periods[p].transactions[k].tag_id;
                let t_ignored = budget.periods[p].transactions[k].ignored;
                let t_id = budget.periods[p].transactions[k].id;
                if t_tag == tag && !t_ignored && !contains_id(still_matched, t_id) {
                    budget.periods[p].transactions[k].tag_id = None;
                    let ghost before = events@;
                    events.push(BudgetEvent::TransactionUntagged { tx_id: t_id });
                    proof {
                        assert(events@ =~= seq![BudgetEvent::RuleDeleted { rule_id }] + untag_events(
                            base + txs.take(k as int + 1),
                            tag,
                            still_matched@,
                        ));
                    }
                }
                k = k + 1;
            }
            proof {
                assert(txs.take(m as int) =~= txs);
                assert(period_transactions(all.take(p as int + 1)) == base + txs);
            }
            p = p + 1;
        }
    } else {
        proof {
            lemma_no_tag_no_events(period_transactions(all), still_matched@);
            assert forall|q: int| 0 <= q < n implies #[trigger] budget.periods@[q] == all[q] by {}
        }
    }
    proof {
        assert(all.take(n as int) =~= all);
    }
    Ok(events)
}

/// The index of the first rule with the given id.
fn find_rule(rules: &Vec<MatchRule>, id: u128) -> (r: Option<usize>)
    ensures
        match r {
            Some(i) => first_rule(rules@, id) == Some(i as int),
            None => first_rule(rules@, id) is None,
        },
{
    let mut i: usize = 0;
    proof {
        assert(rules@.take(0) =~= Seq::<MatchRule>::empty());
    }
    while i < rules.len()
        invariant
            0 <= i <= rules@.len(),
            first_rule(rules@.take(i as int), id) is None,
        decreases rules@.len() - i,
    {
        proof {
            assert(rules@.take(i as int + 1).drop_last() =~= rules@.take(i as int));
        }
        if rules[i].id == id {
            proof {
                lemma_first_rule_prefix(rules@, id, i as int + 1);
            }
            return Some(i);
        }
        i = i + 1;
    }
    proof {
        assert(rules@.take(rules@.len() as int) =~= rules@);
    }
    None
}

/// With no tag, no transaction loses one.
proof fn lemma_no_tag_no_events(txs: Seq<BudgetTransaction>, still_matched: Seq<u128>)
    ensures
        untag_events(txs, None, still_matched) == Seq::<BudgetEvent>::empty(),
    decreases txs.len(),
{
    if txs.len() > 0 {
        lemma_no_tag_no_events(txs.drop_last(), still_matched);
    }
}

} // verus!
