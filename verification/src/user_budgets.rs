//! The list of budgets a user has, each with a flag that marks the user's
//! default budget: adding a budget to the list and finding the default.

use vstd::prelude::*;

verus! {

/// An entry of a user's budget list: the budget's id and whether it is the
/// user's default budget.
pub type BudgetEntry = (u128, bool);

/// Entries for a budget other than `budget_id`.
pub open spec fn for_other_budget(budget_id: u128) -> spec_fn(BudgetEntry) -> bool {
    |e: BudgetEntry| e.0 != budget_id
}

/// The entries of a list that are not for the given budget, in order.
pub open spec fn entries_without(s: Seq<BudgetEntry>, budget_id: u128) -> Seq<BudgetEntry> {
    s.filter(for_other_budget(budget_id))
}

/// The entries of a list with every default flag cleared.
pub open spec fn defaults_cleared(s: Seq<BudgetEntry>) -> Seq<BudgetEntry> {
    s.map_values(|e: BudgetEntry| (e.0, false))
}

/// A user's list after adding a budget: any earlier entry for the budget is
/// dropped, every other default is cleared when the budget becomes the
/// default, and the budget is appended with its flag.
pub open spec fn budgets_after_adding(s: Seq<BudgetEntry>, budget_id: u128, default: bool) -> Seq<
    BudgetEntry,
> {
    let others = entries_without(s, budget_id);
    if default {
        defaults_cleared(others).push((budget_id, default))
    } else {
        others.push((budget_id, default))
    }
}

/// The budget of the first entry marked as default, if any.
pub open spec fn first_default(s: Seq<BudgetEntry>) -> Option<u128>
    decreases s.len(),
{
    if s.len() == 0 {
        None
    } else if s[0].1 {
        Some(s[0].0)
    } else {
        first_default(s.drop_first())
    }
}

/// The number of entries marked as default.
pub open spec fn default_count(s: Seq<BudgetEntry>) -> nat {
    s.filter(|e: BudgetEntry| e.1).len()
}

/// The list of a user's budgets after adding `budget_id` (a user without a
/// list starts from an empty one).
pub fn add_budget_to_list(existing: Option<Vec<BudgetEntry>>, budget_id: u128, default: bool) -> (r:
    Vec<BudgetEntry>)
    ensures
        r@ == budgets_after_adding(
            match existing {
                Some(v) => v@,
                None => Seq::empty(),
            },
            budget_id,
            default,
        ),
{
    let budgets = match existing {
        Some(v) => v,
        None => Vec::new(),
    };
    let ghost s = budgets@;
    let ghost keep = for_other_budget(budget_id);
    let mut kept: Vec<BudgetEntry> = Vec::new();
    let mut i: usize = 0;
    proof {
        reveal(Seq::filter);
        assert(s.take(0) =~= Seq::<BudgetEntry>::empty());
    }
    while i < budgets.len()
        invariant
            s == budgets@,
            0 <= i <= s.len(),
            keep == for_other_budget(budget_id),
            kept@ == (if default {
                defaults_cleared(s.take(i as int).filter(keep))
            } else {
                s.take(i as int).filter(keep)
            }),
        decreases s.len() - i,
    {
        let entry = budgets[i];
        proof {
            reveal(Seq::filter);
            assert(s.take(i as int + 1).drop_last() =~= s.take(i as int));
            assert(s.take(i as int + 1).last() == entry);
        }
        if entry.0 != budget_id {
            let ghost before = kept@;
            if default {
                kept.push((entry.0, false));
                proof {
                    assert(s.take(i as int + 1).filter(keep) == s.take(i as int).filter(keep).push(entry));
                    assert(kept@ =~= defaults_cleared(s.take(i as int + 1).filter(keep)));
                }
            } else {
                kept.push(entry);
            }
        } else {
            proof {
                assert(s.take(i as int + 1).filter(keep) == s.take(i as int).filter(keep));
            }
        }
        i = i + 1;
    }
    proof {
        assert(s.take(s.len() as int) =~= s);
    }
    let ghost before = kept@;
    kept.push((budget_id, default));
    proof {
        assert(before == (if default {
            defaults_cleared(entries_without(s, budget_id))
        } else {
            entries_without(s, budget_id)
        }));
        assert(kept@ =~= budgets_after_adding(s, budget_id, default));
    }
    kept
}

/// The user's default budget: the budget of the first entry marked as
/// default, if any.
pub fn default_budget_id(budgets: &[BudgetEntry]) -> (r: Option<u128>)
    ensures
        r == first_default(budgets@),
{
    let mut i: usize = 0;
    assert(budgets@.skip(0) =~= budgets@);
    while i < budgets.len()
        invariant
            0 <= i <= budgets@.len(),
            first_default(budgets@) == first_default(budgets@.skip(i as int)),
        decreases budgets@.len() - i,
    {
        proof {
            assert(budgets@.skip(i as int).drop_first() =~= budgets@.skip(i as int + 1));
        }
        if budgets[i].1 {
            return Some(budgets[i].0);
        }
        i = i + 1;
    }
    None
}

/// Law: after adding a budget the list holds exactly one entry for it, the
/// last one, carrying the flag it was added with.
pub proof fn law_added_budget_listed_once(s: Seq<BudgetEntry>, budget_id: u128, default: bool)
    ensures
        ({
            let r = budgets_after_adding(s, budget_id, default);
            &&& r.len() > 0
            &&& r.last() == (budget_id, default)
            &&& forall|i: int| 0 <= i < r.len() - 1 ==> (#[trigger] r[i]).0 != budget_id
        }),
{
    let others = entries_without(s, budget_id);
    assert forall|i: int| 0 <= i < others.len() implies (#[trigger] others[i]).0 != budget_id by {
        s.lemma_filter_pred(for_other_budget(budget_id), i);
    }
}

/// Law: the entries for other budgets are kept, in their order; their
/// default flags are kept unless the added budget becomes the default.
pub proof fn law_other_budgets_kept(s: Seq<BudgetEntry>, budget_id: u128, default: bool)
    ensures
        ({
            let r = budgets_after_adding(s, budget_id, default);
            let others = entries_without(s, budget_id);
            &&& r.len() == others.len() + 1
            &&& forall|i: int|
                0 <= i < others.len() ==> (#[trigger] r[i]).0 == others[i].0 && r[i].1 == (
                !default && others[i].1)
        }),
{
}

/// Law: after adding a budget as the default it is the only default, and it
/// is the default that is found.
pub proof fn law_new_default_is_the_only_default(s: Seq<BudgetEntry>, budget_id: u128)
    ensures
        first_default(budgets_after_adding(s, budget_id, true)) == Some(budget_id),
        default_count(budgets_after_adding(s, budget_id, true)) == 1,
{
    let r = budgets_after_adding(s, budget_id, true);
    let cleared = defaults_cleared(entries_without(s, budget_id));
    lemma_no_default_found(cleared);
    lemma_first_default_after_prefix(cleared, (budget_id, true));
    cleared.lemma_filter_len_push(|e: BudgetEntry| e.1, (budget_id, true));
    lemma_no_default_counted(cleared);
}

/// Law: adding a budget that is not the default leaves the default found
/// unchanged, unless the budget added was that default.
pub proof fn law_default_kept_when_adding_another(s: Seq<BudgetEntry>, budget_id: u128)
    requires
        first_default(s) != Some(budget_id),
    ensures
        first_default(budgets_after_adding(s, budget_id, false)) == first_default(s),
    decreases s.len(),
{
    let keep = for_other_budget(budget_id);
    let r = budgets_after_adding(s, budget_id, false);
    if s.len() == 0 {
        reveal(Seq::filter);
        assert(entries_without(s, budget_id) =~= Seq::<BudgetEntry>::empty());
        assert(r =~= seq![(budget_id, false)]);
        assert(r.drop_first() =~= Seq::<BudgetEntry>::empty());
        assert(first_default(r) == first_default(r.drop_first()));
    } else {
        lemma_filter_first(s, keep);
        let rest = s.drop_first();
        if keep(s[0]) {
            assert(r =~= seq![s[0]] + budgets_after_adding(rest, budget_id, false));
            assert(r[0] == s[0]);
            if !s[0].1 {
                law_default_kept_when_adding_another(rest, budget_id);
                assert(r.drop_first() =~= budgets_after_adding(rest, budget_id, false));
                assert(first_default(r) == first_default(r.drop_first()));
            }
        } else {
            assert(!s[0].1);
            law_default_kept_when_adding_another(rest, budget_id);
            assert(r =~= budgets_after_adding(rest, budget_id, false));
        }
    }
}

/// Filtering a non-empty sequence: its first element leads the result when
/// it is kept.
proof fn lemma_filter_first(s: Seq<BudgetEntry>, p: spec_fn(BudgetEntry) -> bool)
    requires
        s.len() > 0,
    ensures
        s.filter(p) == if p(s[0]) {
            seq![s[0]] + s.drop_first().filter(p)
        } else {
            s.drop_first().filter(p)
        },
{
    s.drop_first().lemma_filter_prepend(s[0], p);
    assert(seq![s[0]] + s.drop_first() =~= s);
    assert(Seq::<BudgetEntry>::empty() + s.drop_first().filter(p) =~= s.drop_first().filter(p));
}

/// A list whose flags are all cleared has no default.
proof fn lemma_no_default_found(s: Seq<BudgetEntry>)
    requires
        forall|i: int| 0 <= i < s.len() ==> !(#[trigger] s[i]).1,
    ensures
        first_default(s) is None,
    decreases s.len(),
{
    if s.len() > 0 {
        lemma_no_default_found(s.drop_first());
    }
}

/// A list whose flags are all cleared counts no default.
proof fn lemma_no_default_counted(s: Seq<BudgetEntry>)
    requires
        forall|i: int| 0 <= i < s.len() ==> !(#[trigger] s[i]).1,
    ensures
        default_count(s) == 0,
    decreases s.len(),
{
    reveal(Seq::filter);
    if s.len() > 0 {
        lemma_no_default_counted(s.drop_last());
        assert(s.drop_last().filter(|e: BudgetEntry| e.1) == s.filter(|e: BudgetEntry| e.1));
    }
}

/// The first default of a list with no default before its last entry is
/// found in that entry.
proof fn lemma_first_default_after_prefix(s: Seq<BudgetEntry>, e: BudgetEntry)
    requires
        first_default(s) is None,
    ensures
        first_default(s.push(e)) == if e.1 {
            Some(e.0)
        } else {
            None::<u128>
        },
    decreases s.len(),
{
    let t = s.push(e);
    if s.len() > 0 {
        assert(!s[0].1);
        lemma_first_default_after_prefix(s.drop_first(), e);
        assert(t.drop_first() =~= s.drop_first().push(e));
        assert(t[0] == s[0]);
        assert(first_default(t) == first_default(t.drop_first()));
    } else {
        assert(t.drop_first() =~= Seq::<BudgetEntry>::empty());
        assert(t[0] == e);
        assert(first_default(t.drop_first()) is None);
    }
}

} // verus!
