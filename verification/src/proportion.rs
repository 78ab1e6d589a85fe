//! Standings, and the items that are split in proportion to them.

use crate::decimal::{Amount, Dec};
use crate::error::SplittingError;
use crate::model::{
    all_aligned, all_known, base_standing, counts, derived_ratio, gathered, known,
    lemma_restricted_total_stays_missing, lemma_running_total_stays_missing,
    lemma_standing_stays_missing, proportional_share, proportional_shares, refreshable, refreshed,
    refreshed_item, restricted_total, restricted_total_upto, running_total, standing,
    standing_upto, standings, sum_of, values_of, ItemView,
};
use crate::receipt::{Receipt, ReceiptItem};
use crate::text::{contains_name, find_name};
use vstd::prelude::*;
use vstd::string::StringExecFns;

verus! {

/// The error for a result that the decimal arithmetic cannot represent.
pub fn arithmetic_failure() -> (r: SplittingError)
    ensures
        r is InternalError,
{
    SplittingError::InternalError(
        "The decimal arithmetic could not represent a result: an overflow or a division by zero.".to_owned(),
    )
}

/// The sum of the amounts, added to zero one after the other.
pub fn sum_amounts(values: &Vec<Amount>) -> (r: Option<Amount>)
    ensures
        r.deep_view() == sum_of(values.deep_view()),
{
    let mut acc = Amount::zero();
    for i in 0..values.len()
        invariant
            running_total(known(values.deep_view()), i as int) == Some(acc@),
    {
        match acc.checked_add(values[i]) {
            Some(next) => {
                acc = next;
            },
            None => {
                proof {
                    lemma_running_total_stays_missing(
                        known(values.deep_view()),
                        i + 1,
                        values.len() as int,
                    );
                }
                return None;
            },
        }
    }
    Some(acc)
}

/// What `person` carries of `item` when standings are worked out, given the
/// sum of the item's weights.
fn item_portion(item: &ReceiptItem, weight_total: Option<Amount>, person: &str) -> (r: Option<
    Amount,
>)
    requires
        item@.aligned(),
        weight_total.deep_view() == item@.weight_total(),
    ensures
        r.deep_view() == item@.portion(person@),
{
    match find_name(&item.shared_by, person) {
        Some(p) => match weight_total {
            Some(t) => match item.share_ratio[p].checked_div(t) {
                Some(q) => q.checked_mul(item.value),
                None => None,
            },
            None => None,
        },
        None => Some(Amount::zero()),
    }
}

/// Zero, once for each of `n` people.
fn zeros(n: usize) -> (r: Vec<Amount>)
    ensures
        r.len() == n,
        forall|j: int| 0 <= j < n ==> r@[j]@ == Dec::zero(),
{
    let mut out: Vec<Amount> = Vec::new();
    for i in 0..n
        invariant
            out@.len() == i,
            forall|j: int| 0 <= j < i ==> out@[j]@ == Dec::zero(),
    {
        out.push(Amount::zero());
    }
    out
}

/// The standing of each of `people` over `items`: what they owe for the
/// items that count. `None` if a standing cannot be represented.
pub fn standings_of(people: &Vec<String>, items: &Vec<ReceiptItem>, exclude_proportional: bool) -> (r:
    Option<Vec<Amount>>)
    requires
        all_aligned(items.deep_view()),
    ensures
        r.deep_view() == gathered(
            standings(people.deep_view(), items.deep_view(), exclude_proportional),
        ),
{
    let n = people.len();
    let ghost names = people.deep_view();
    let ghost views = items.deep_view();
    let mut acc = zeros(n);
    for i in 0..items.len()
        invariant
            n == people.len(),
            names == people.deep_view(),
            views == items.deep_view(),
            all_aligned(views),
            acc.len() == n,
            forall|j: int|
                0 <= j < n ==> standing_upto(views, i as int, #[trigger] names[j], exclude_proportional)
                    == Some(acc@[j]@),
    {
        let item = &items[i];
        assert(item@ == views[i as int]);
        if !(exclude_proportional && item.is_prop_dist) {
            let weight_total = sum_amounts(&item.share_ratio);
            for j in 0..n
                invariant
                    n == people.len(),
                    names == people.deep_view(),
                    views == items.deep_view(),
                    i < items.len(),
                    item@ == views[i as int],
                    item@.aligned(),
                    counts(item@, exclude_proportional),
                    weight_total.deep_view() == item@.weight_total(),
                    acc.len() == n,
                    forall|k: int|
                        0 <= k < j ==> standing_upto(
                            views,
                            i + 1,
                            #[trigger] names[k],
                            exclude_proportional,
                        ) == Some(acc@[k]@),
                    forall|k: int|
                        j <= k < n ==> standing_upto(
                            views,
                            i as int,
                            #[trigger] names[k],
                            exclude_proportional,
                        ) == Some(acc@[k]@),
            {
                let person = people[j].as_str();
                assert(person@ == names[j as int]);
                let next = match item_portion(item, weight_total, person) {
                    Some(part) => acc[j].checked_add(part),
                    None => None,
                };
                match next {
                    Some(sum) => {
                        acc.set(j, sum);
                    },
                    None => {
                        proof {
                            assert(standing_upto(views, i + 1, names[j as int], exclude_proportional)
                                is None);
                            lemma_standing_stays_missing(
                                views,
                                i + 1,
                                views.len() as int,
                                names[j as int],
                                exclude_proportional,
                            );
                            assert(standings(names, views, exclude_proportional)[j as int] is None);
                        }
                        return None;
                    },
                }
            }
        }
    }
    proof {
        let cells = standings(names, views, exclude_proportional);
        assert forall|j: int| 0 <= j < cells.len() implies (#[trigger] cells[j]) == Some(
            acc@[j]@,
        ) by {
            assert(standing_upto(views, views.len() as int, names[j], exclude_proportional) == Some(
                acc@[j]@,
            ));
        }
        assert(acc.deep_view() =~= values_of(cells));
    }
    Some(acc)
}

/// The weights of a proportional item worth `value` and shared by
/// `shared_by`: for each sharer, their standing over the standings of all
/// the sharers, times `value`, rounded to cents. `None` if a standing or a
/// weight cannot be represented.
pub fn derive_ratio(
    people: &Vec<String>,
    items: &Vec<ReceiptItem>,
    shared_by: &Vec<String>,
    value: Amount,
) -> (r: Option<Vec<Amount>>)
    requires
        all_aligned(items.deep_view()),
    ensures
        r.deep_view() == derived_ratio(
            people.deep_view(),
            items.deep_view(),
            shared_by.deep_view(),
            value@,
        ),
{
    let ghost names = people.deep_view();
    let ghost views = items.deep_view();
    let ghost sharers = shared_by.deep_view();
    let ghost shares = proportional_shares(names, views, sharers, value@);
    let owed = match standings_of(people, items, true) {
        Some(v) => v,
        None => {
            return None;
        },
    };
    assert(all_known(standings(names, views, true)));
    assert(owed.deep_view().len() == names.len());
    assert forall|j: int| 0 <= j < names.len() implies standing(views, #[trigger] names[j], true)
        == Some(owed@[j]@) by {
        assert(owed.deep_view()[j] == values_of(standings(names, views, true))[j]);
        assert(standings(names, views, true)[j] is Some);
    }
    let mut among = Amount::zero();
    for j in 0..people.len()
        invariant
            names == people.deep_view(),
            views == items.deep_view(),
            sharers == shared_by.deep_view(),
            owed.len() == people.len(),
            shares == proportional_shares(names, views, sharers, value@),
            all_known(standings(names, views, true)),
            forall|k: int|
                0 <= k < names.len() ==> standing(views, #[trigger] names[k], true) == Some(
                    owed@[k]@,
                ),
            restricted_total_upto(names, views, sharers, j as int) == Some(among@),
    {
        let person = people[j].as_str();
        assert(person@ == names[j as int]);
        if contains_name(shared_by, person) {
            match among.checked_add(owed[j]) {
                Some(t) => {
                    among = t;
                },
                None => {
                    proof {
                        lemma_restricted_total_stays_missing(
                            names,
                            views,
                            sharers,
                            j + 1,
                            names.len() as int,
                        );
                        let k = choose|k: int| 0 <= k < sharers.len() && sharers[k] == names[j as int];
                        assert(shares[k] is None);
                    }
                    return None;
                },
            }
        }
    }
    let mut out: Vec<Amount> = Vec::new();
    for k in 0..shared_by.len()
        invariant
            names == people.deep_view(),
            views == items.deep_view(),
            sharers == shared_by.deep_view(),
            owed.len() == people.len(),
            shares == proportional_shares(names, views, sharers, value@),
            all_known(standings(names, views, true)),
            forall|i: int|
                0 <= i < names.len() ==> standing(views, #[trigger] names[i], true) == Some(
                    owed@[i]@,
                ),
            restricted_total(names, views, sharers) == Some(among@),
            out.len() == k,
            forall|i: int| 0 <= i < k ==> (#[trigger] shares[i]) == Some(out@[i]@),
    {
        let person = shared_by[k].as_str();
        assert(person@ == sharers[k as int]);
        let base = match find_name(people, person) {
            Some(j) => owed[j],
            None => Amount::zero(),
        };
        proof {
            names.index_of_first_ensures(person@);
            assert(Some(base@) == base_standing(names, views, person@));
            assert(shares[k as int] == proportional_share(names, views, sharers, value@, k as int));
        }
        let share = match base.checked_div(among) {
            Some(q) => q.checked_mul(value),
            None => None,
        };
        match share {
            Some(s) => {
                out.push(s.round_dp(2));
            },
            None => {
                assert(shares[k as int] is None);
                return None;
            },
        }
    }
    assert(out.deep_view() =~= values_of(shares));
    Some(out)
}

/// Recalculates the items: the weights of every proportional item are
/// derived anew from the items split by ratio. Says whether this could be
/// done; if not, the items are left as they were.
pub fn refresh(people: &Vec<String>, items: &mut Vec<ReceiptItem>) -> (done: bool)
    requires
        all_aligned(old(items).deep_view()),
    ensures
        done == refreshable(people.deep_view(), old(items).deep_view()),
        done ==> final(items).deep_view() == refreshed(people.deep_view(), old(items).deep_view()),
        done ==> all_aligned(final(items).deep_view()),
        !done ==> *final(items) == *old(items),
{
    let ghost names = people.deep_view();
    let ghost views = items.deep_view();
    let n = items.len();
    let mut ratios: Vec<Option<Vec<Amount>>> = Vec::new();
    for i in 0..n
        invariant
            *items == *old(items),
            names == people.deep_view(),
            views == items.deep_view(),
            n == items.len(),
            all_aligned(views),
            ratios.len() == i,
            forall|j: int|
                0 <= j < i ==> if (#[trigger] views[j]).is_prop_dist {
                    ratios@[j] is Some && derived_ratio(
                        names,
                        views,
                        views[j].shared_by,
                        views[j].value,
                    ) == Some(ratios@[j]->0.deep_view())
                } else {
                    ratios@[j] is None
                },
    {
        if items[i].is_prop_dist {
            match derive_ratio(people, items, &items[i].shared_by, items[i].value) {
                Some(ratio) => {
                    ratios.push(Some(ratio));
                },
                None => {
                    assert(refreshed_item(names, views, views[i as int]) is None);
                    return false;
                },
            }
        } else {
            ratios.push(None);
        }
    }
    assert(refreshable(names, views)) by {
        assert forall|j: int| 0 <= j < views.len() implies refreshed_item(
            names,
            views,
            #[trigger] views[j],
        ) is Some by {
            if views[j].is_prop_dist {
                assert(ratios@[j] is Some);
            }
        }
    }
    let mut i = n;
    while i > 0
        invariant
            i <= n,
            n == items.len(),
            names == people.deep_view(),
            views == old(items).deep_view(),
            views.len() == n,
            ratios.len() == i,
            refreshable(names, views),
            forall|j: int|
                0 <= j < i ==> if (#[trigger] views[j]).is_prop_dist {
                    ratios@[j] is Some && derived_ratio(
                        names,
                        views,
                        views[j].shared_by,
                        views[j].value,
                    ) == Some(ratios@[j]->0.deep_view())
                } else {
                    ratios@[j] is None
                },
            forall|j: int| 0 <= j < i ==> (#[trigger] items@[j])@ == views[j],
            forall|j: int|
                i <= j < n ==> Some((#[trigger] items@[j])@) == refreshed_item(
                    names,
                    views,
                    views[j],
                ),
        decreases i,
    {
        i -= 1;
        let ghost before = items@;
        assert(views[i as int].is_prop_dist ==> ratios@[i as int] is Some);
        match ratios.pop() {
            Some(Some(ratio)) => {
                items[i].share_ratio = ratio;
                assert(forall|j: int| 0 <= j < n && j != i ==> items@[j] == before[j]);
            },
            _ => {},
        }
    }
    proof {
        let after = refreshed(names, views);
        assert forall|j: int| 0 <= j < n implies items.deep_view()[j] == after[j] by {
            assert(Some(items@[j]@) == refreshed_item(names, views, views[j]));
        }
        assert(items.deep_view() =~= after);
        assert forall|j: int| 0 <= j < n implies (#[trigger] items.deep_view()[j]).aligned() by {
            assert(Some(items@[j]@) == refreshed_item(names, views, views[j]));
            assert(views[j].aligned());
        }
    }
    true
}

impl Receipt {
    /// The standing of each of the people, in their order: what they owe for
    /// the items that count, which are all the items or, with
    /// `exclude_proportional`, those split by ratio. `None` if a standing
    /// cannot be represented.
    pub fn calculate_receipt_proportions(&self, exclude_proportional: bool) -> (r: Option<
        Vec<Amount>,
    >)
        requires
            self@.wf(),
        ensures
            r.deep_view() == gathered(
                standings(self@.shared_by, self@.items, exclude_proportional),
            ),
    {
        standings_of(&self.shared_by, &self.items, exclude_proportional)
    }

    /// The weights that an item worth `value` and shared by `shared_by` gets
    /// when it is split in proportion to what the sharers owe for the items
    /// split by ratio.
    ///
    /// Fails where the decimal arithmetic cannot represent a result, as when
    /// the sharers owe nothing at all.
    pub fn calculate_item_share_ratio_by_proportion(
        &self,
        shared_by: &Vec<String>,
        value: Amount,
    ) -> (r: Result<Vec<Amount>, SplittingError>)
        requires
            self@.wf(),
        ensures
            match r {
                Ok(ratio) => derived_ratio(
                    self@.shared_by,
                    self@.items,
                    shared_by.deep_view(),
                    value@,
                ) == Some(ratio.deep_view()),
                Err(e) => e is InternalError && derived_ratio(
                    self@.shared_by,
                    self@.items,
                    shared_by.deep_view(),
                    value@,
                ) is None,
            },
    {
        match derive_ratio(&self.shared_by, &self.items, shared_by, value) {
            Some(ratio) => Ok(ratio),
            None => Err(arithmetic_failure()),
        }
    }

    /// Adds an item that is split in proportion to what its sharers owe for
    /// the items split by ratio.
    ///
    /// Somebody must share the item, and the item must have a name, as for an
    /// item split by ratio. The weights must be representable, which they are
    /// not when the sharers owe nothing at all. A refused item leaves the
    /// receipt as it was.
    pub fn add_item_split_by_proportion(
        &mut self,
        value: Amount,
        name: String,
        shared_by: Vec<String>,
    ) -> (r: Result<&mut Self, SplittingError>)
        requires
            old(self)@.wf(),
        ensures
            ({
                let ratio = derived_ratio(
                    old(self)@.shared_by,
                    old(self)@.items,
                    shared_by.deep_view(),
                    value@,
                );
                match r {
                    Ok(receipt) => {
                        &&& shared_by.len() > 0
                        &&& name@.len() > 0
                        &&& ratio is Some
                        &&& receipt@ == old(self)@.with_items(
                            old(self)@.items.push(
                                ItemView {
                                    value: value@,
                                    name: name@,
                                    shared_by: shared_by.deep_view(),
                                    share_ratio: ratio->0,
                                    is_prop_dist: true,
                                },
                            ),
                        )
                        &&& receipt@.wf()
                        &&& *final(self) == *final(receipt)
                    },
                    Err(e) => {
                        &&& *final(self) == *old(self)
                        &&& match e {
                            SplittingError::NotEnoughPeopleError(_) => shared_by.len() == 0,
                            SplittingError::InvalidFieldError(_) => shared_by.len() > 0 && name@.len()
                                == 0,
                            SplittingError::InternalError(_) => shared_by.len() > 0 && name@.len() > 0
                                && ratio is None,
                            _ => false,
                        }
                    },
                }
            }),
    {
        if shared_by.len() == 0 {
            let mut msg = "The number of people sharing the item ".to_owned();
            msg.append(name.as_str());
            msg.append(" is 0. It must be shared by at least 1 person.");
            return Err(SplittingError::NotEnoughPeopleError(msg));
        }
        if name.as_str().is_empty() {
            return Err(SplittingError::InvalidFieldError("Item name cannot be empty".to_owned()));
        }
        let share_ratio = match derive_ratio(&self.shared_by, &self.items, &shared_by, value) {
            Some(ratio) => ratio,
            None => {
                return Err(arithmetic_failure());
            },
        };
        let item = ReceiptItem { value, name, shared_by, share_ratio, is_prop_dist: true };
        self.items.push(item);
        assert(self@.items =~= old(self)@.items.push(item@));
        assert(self@.abbreviations() =~= old(self)@.abbreviations());
        Ok(self)
    }

    /// Recalculates the receipt: the weights of every proportional item are
    /// derived anew from the items split by ratio, so that they follow what
    /// has changed since. Where a weight cannot be represented, nothing is
    /// changed.
    pub fn recalculate_proportions(&mut self) -> (r: Result<(), SplittingError>)
        requires
            old(self)@.wf(),
        ensures
            match r {
                Ok(_) => {
                    &&& refreshable(old(self)@.shared_by, old(self)@.items)
                    &&& final(self)@ == old(self)@.with_items(
                        refreshed(old(self)@.shared_by, old(self)@.items),
                    )
                    &&& final(self)@.wf()
                },
                Err(e) => {
                    &&& e is InternalError
                    &&& !refreshable(old(self)@.shared_by, old(self)@.items)
                    &&& *final(self) == *old(self)
                },
            },
    {
        if refresh(&self.shared_by, &mut self.items) {
            assert(self@.abbreviations() =~= old(self)@.abbreviations());
            Ok(())
        } else {
            Err(arithmetic_failure())
        }
    }
}

} // verus!
