//! The receipt, its items, and how items are added.

use crate::decimal::{Amount, Dec};
use crate::error::SplittingError;
use crate::model::{all_aligned, ones, ItemView, ReceiptView};
use crate::text::{clone_names, is_string_vec_unique, is_vec_len_gt_1, strs_to_strings};
use vstd::prelude::*;
use vstd::string::StringExecFns;

verus! {

/// An item of a receipt: a value, shared by some of the people.
#[derive(Clone, Debug, PartialEq, Eq)]
pub struct ReceiptItem {
    /// What the item costs.
    pub value: Amount,
    /// What the item is called.
    pub name: String,
    /// Who shares the item.
    pub shared_by: Vec<String>,
    /// The weight of each sharer, in the order of `shared_by`.
    pub share_ratio: Vec<Amount>,
    /// Whether the weights follow what the sharers owe for the other items.
    pub is_prop_dist: bool,
}

impl View for ReceiptItem {
    type V = ItemView;

    open spec fn view(&self) -> ItemView {
        ItemView {
            value: self.value@,
            name: self.name@,
            shared_by: self.shared_by.deep_view(),
            share_ratio: self.share_ratio.deep_view(),
            is_prop_dist: self.is_prop_dist,
        }
    }
}

impl DeepView for ReceiptItem {
    type V = ItemView;

    open spec fn deep_view(&self) -> ItemView {
        self@
    }
}

/// A receipt: a total, the people who share it, and its items.
#[derive(Clone, Debug, PartialEq, Eq)]
pub struct Receipt {
    /// The total of the receipt.
    pub value: Amount,
    /// The people who share the receipt, in the order in which they are shown.
    pub shared_by: Vec<String>,
    /// The abbreviations learned so far, each with the person it stands for.
    pub mapped_abbreviations: Vec<(String, String)>,
    /// The items, in the order in which they were added.
    pub items: Vec<ReceiptItem>,
}

impl View for Receipt {
    type V = ReceiptView;

    open spec fn view(&self) -> ReceiptView {
        ReceiptView {
            value: self.value@,
            shared_by: self.shared_by.deep_view(),
            mapped_abbreviations: self.mapped_abbreviations.deep_view(),
            items: self.items.deep_view(),
        }
    }
}

/// The weight one, once for each of `n` sharers.
pub fn unit_weights(n: usize) -> (r: Vec<Amount>)
    ensures
        r.deep_view() == ones(n as nat),
{
    let mut out: Vec<Amount> = Vec::new();
    for i in 0..n
        invariant
            out@.len() == i,
            forall|j: int| 0 <= j < i ==> out@[j]@ == Dec::one(),
    {
        out.push(Amount::one());
    }
    assert(out.deep_view() =~= ones(n as nat));
    out
}

/// A copy of the amounts, in the same order.
pub fn clone_amounts(amounts: &Vec<Amount>) -> (r: Vec<Amount>)
    ensures
        r.deep_view() == amounts.deep_view(),
{
    let mut out: Vec<Amount> = Vec::new();
    for i in 0..amounts.len()
        invariant
            out@.len() == i,
            forall|j: int| 0 <= j < i ==> out@[j]@ == amounts@[j]@,
    {
        out.push(amounts[i]);
    }
    assert(out.deep_view() =~= amounts.deep_view());
    out
}

impl ReceiptItem {
    /// A copy of the item.
    pub fn duplicate(&self) -> (r: ReceiptItem)
        ensures
            r@ == self@,
    {
        ReceiptItem {
            value: self.value,
            name: self.name.clone(),
            shared_by: clone_names(&self.shared_by),
            share_ratio: clone_amounts(&self.share_ratio),
            is_prop_dist: self.is_prop_dist,
        }
    }
}

/// A copy of the items, in the same order.
pub fn clone_items(items: &Vec<ReceiptItem>) -> (r: Vec<ReceiptItem>)
    ensures
        r.deep_view() == items.deep_view(),
{
    let mut out: Vec<ReceiptItem> = Vec::new();
    for i in 0..items.len()
        invariant
            out@.len() == i,
            forall|j: int| 0 <= j < i ==> out@[j]@ == items@[j]@,
    {
        out.push(items[i].duplicate());
    }
    assert(out.deep_view() =~= items.deep_view());
    out
}

impl Receipt {
    /// A receipt over `value`, shared by the people named, without items.
    ///
    /// Nobody may be named twice, and at least two people share a receipt.
    pub fn new(value: Amount, shared_by: Vec<&str>) -> (r: Result<Receipt, SplittingError>)
        ensures
            match r {
                Ok(receipt) => {
                    &&& shared_by.deep_view().no_duplicates()
                    &&& shared_by.len() >= 2
                    &&& receipt@ == ReceiptView {
                        value: value@,
                        shared_by: shared_by.deep_view(),
                        mapped_abbreviations: Seq::empty(),
                        items: Seq::empty(),
                    }
                    &&& receipt@.wf()
                },
                Err(SplittingError::DuplicatePeopleError(_)) => !shared_by.deep_view().no_duplicates(),
                Err(SplittingError::NotEnoughPeopleError(_)) => shared_by.deep_view().no_duplicates()
                    && shared_by.len() < 2,
                Err(_) => false,
            },
    {
        let names = shared_by.as_slice();
        assert(names.deep_view() =~= shared_by.deep_view());
        match is_string_vec_unique(
            names,
            SplittingError::DuplicatePeopleError(
                "The list of people sharing the receipt is duplicated. Please disambiguate.".to_owned(),
            ),
        ) {
            Ok(_) => {},
            Err(e) => {
                return Err(e);
            },
        }
        match is_vec_len_gt_1(
            names,
            SplittingError::NotEnoughPeopleError(
                "A receipt has to be shared by at least 2 people.".to_owned(),
            ),
        ) {
            Ok(_) => {},
            Err(e) => {
                return Err(e);
            },
        }
        let receipt = Receipt {
            value,
            shared_by: strs_to_strings(shared_by),
            mapped_abbreviations: Vec::new(),
            items: Vec::new(),
        };
        assert(receipt@.mapped_abbreviations =~= Seq::empty());
        assert(receipt@.items =~= Seq::empty());
        assert(receipt@.abbreviations() =~= Seq::empty());
        Ok(receipt)
    }

    /// Adds an item that is split by fixed weights: one weight for each of
    /// `shared_by`, or the same weight for everyone where none are given.
    ///
    /// The weights must be as many as the sharers, somebody must share the
    /// item, and the item must have a name. A refused item leaves the receipt
    /// as it was.
    pub fn add_item_split_by_ratio(
        &mut self,
        value: Amount,
        name: String,
        shared_by: Vec<String>,
        share_ratio: Option<Vec<Amount>>,
    ) -> (r: Result<&mut Self, SplittingError>)
        ensures
            ({
                let ratio = match share_ratio {
                    Some(weights) => weights.deep_view(),
                    None => ones(shared_by.len() as nat),
                };
                let item = ItemView {
                    value: value@,
                    name: name@,
                    shared_by: shared_by.deep_view(),
                    share_ratio: ratio,
                    is_prop_dist: false,
                };
                match r {
                    Ok(receipt) => {
                        &&& ratio.len() == shared_by.len()
                        &&& shared_by.len() > 0
                        &&& name@.len() > 0
                        &&& receipt@ == old(self)@.with_items(old(self)@.items.push(item))
                        &&& old(self)@.wf() ==> receipt@.wf()
                        &&& *final(self) == *final(receipt)
                    },
                    Err(e) => {
                        &&& *final(self) == *old(self)
                        &&& match e {
                            SplittingError::InvalidShareConfiguration(_) => ratio.len()
                                != shared_by.len(),
                            SplittingError::NotEnoughPeopleError(_) => ratio.len()
                                == shared_by.len() && shared_by.len() == 0,
                            SplittingError::InvalidFieldError(_) => ratio.len() == shared_by.len()
                                && shared_by.len() > 0 && name@.len() == 0,
                            _ => false,
                        }
                    },
                }
            }),
    {
        let share_ratio = match share_ratio {
            Some(weights) => weights,
            None => unit_weights(shared_by.len()),
        };
        if shared_by.len() != share_ratio.len() {
            let mut msg = "Length mismatch: people sharing ".to_owned();
            msg.append(shared_by.len().to_string().as_str());
            msg.append(" and the ratios of the shares ");
            msg.append(share_ratio.len().to_string().as_str());
            msg.append(" have differing lengths.");
            return Err(SplittingError::InvalidShareConfiguration(msg));
        } else if shared_by.len() == 0 {
            let mut msg = "The number of people sharing the item ".to_owned();
            msg.append(name.as_str());
            msg.append(" is ");
            msg.append(shared_by.len().to_string().as_str());
            msg.append(". It must be shared by at least 1 person.");
            return Err(SplittingError::NotEnoughPeopleError(msg));
        }
        if name.as_str().is_empty() {
            return Err(SplittingError::InvalidFieldError("Item name cannot be empty".to_owned()));
        }
        let item = ReceiptItem { value, name, shared_by, share_ratio, is_prop_dist: false };
        self.items.push(item);
        assert(self@.items =~= old(self)@.items.push(item@));
        assert(self@.abbreviations() =~= old(self)@.abbreviations());
        Ok(self)
    }

    /// Whether the receipt is as every receipt has to be: shared by at least
    /// two people and by nobody twice, with a weight for every sharer of
    /// every item, and with no abbreviation learned twice.
    pub fn is_well_formed(&self) -> (r: bool)
        ensures
            r == self@.wf(),
    {
        if self.shared_by.len() < 2 {
            return false;
        }
        let ghost people = self@.shared_by;
        for i in 0..self.shared_by.len()
            invariant
                people == self@.shared_by,
                forall|a: int, b: int| 0 <= a < b < i ==> people[a] != people[b],
        {
            for j in 0..i
                invariant
                    people == self@.shared_by,
                    i < self.shared_by.len(),
                    forall|a: int, b: int| 0 <= a < b < i ==> people[a] != people[b],
                    forall|a: int| 0 <= a < j ==> people[a] != people[i as int],
            {
                if self.shared_by[j] == self.shared_by[i] {
                    assert(people[j as int] == people[i as int]);
                    return false;
                }
            }
        }
        assert(people.no_duplicates()) by {
            assert forall|a: int, b: int|
                0 <= a < people.len() && 0 <= b < people.len() && a != b implies people[a]
                != people[b] by {
                if a < b {
                    assert(people[a] != people[b]);
                } else {
                    assert(people[b] != people[a]);
                }
            }
        }
        for i in 0..self.items.len()
            invariant
                forall|k: int| 0 <= k < i ==> (#[trigger] self@.items[k]).aligned(),
        {
            if self.items[i].shared_by.len() != self.items[i].share_ratio.len() {
                assert(!self@.items[i as int].aligned());
                return false;
            }
        }
        let ghost keys = self@.abbreviations();
        for i in 0..self.mapped_abbreviations.len()
            invariant
                keys == self@.abbreviations(),
                people.no_duplicates(),
                people == self@.shared_by,
                all_aligned(self@.items),
                forall|a: int, b: int| 0 <= a < b < i ==> keys[a] != keys[b],
        {
            for j in 0..i
                invariant
                    keys == self@.abbreviations(),
                    i < self.mapped_abbreviations.len(),
                    forall|a: int, b: int| 0 <= a < b < i ==> keys[a] != keys[b],
                    forall|a: int| 0 <= a < j ==> keys[a] != keys[i as int],
            {
                if self.mapped_abbreviations[j].0 == self.mapped_abbreviations[i].0 {
                    assert(keys[j as int] == keys[i as int]);
                    return false;
                }
            }
        }
        assert(keys.no_duplicates()) by {
            assert forall|a: int, b: int|
                0 <= a < keys.len() && 0 <= b < keys.len() && a != b implies keys[a] != keys[b] by {
                if a < b {
                    assert(keys[a] != keys[b]);
                } else {
                    assert(keys[b] != keys[a]);
                }
            }
        }
        true
    }
}

} // verus!
