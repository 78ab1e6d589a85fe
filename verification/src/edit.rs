//! Changing and removing the items of a receipt.
//!
//! A proportional item follows the items split by ratio, so a change to any
//! item is followed by a recalculation, and the last item split by ratio
//! stays while a proportional item needs it.

use crate::decimal::Amount;
use crate::error::SplittingError;
use crate::model::{
    all_aligned, any_proportional, basis_besides, edited_item, orphans, refreshable, refreshed,
};
use crate::proportion::{arithmetic_failure, refresh};
use crate::receipt::{clone_amounts, clone_items, unit_weights, Receipt, ReceiptItem};
use crate::text::clone_names;
use vstd::prelude::*;

verus! {

/// Whether some item is proportional.
pub fn has_proportional(items: &Vec<ReceiptItem>) -> (r: bool)
    ensures
        r == any_proportional(items.deep_view()),
{
    for i in 0..items.len()
        invariant
            forall|j: int| 0 <= j < i ==> !(#[trigger] items.deep_view()[j]).is_prop_dist,
    {
        if items[i].is_prop_dist {
            assert(items.deep_view()[i as int].is_prop_dist);
            return true;
        }
    }
    false
}

impl Receipt {
    /// Whether the item at `index` can be split proportionally: whether some
    /// other item is split by ratio.
    pub fn is_proportionally_splittable(&self, index: usize) -> (r: bool)
        ensures
            r == basis_besides(self@.items, index as int),
    {
        for i in 0..self.items.len()
            invariant
                forall|j: int|
                    0 <= j < i && j != index ==> (#[trigger] self@.items[j]).is_prop_dist,
        {
            if i != index && !self.items[i].is_prop_dist {
                assert(!self@.items[i as int].is_prop_dist);
                return true;
            }
        }
        false
    }

    /// Changes the item at `idx`: what is given replaces what the item had.
    ///
    /// New sharers count the same. Making the item proportional is refused
    /// unless another item is split by ratio; an item that is made
    /// proportional, or is no longer to be, is shared by all the people. A
    /// change of more than the name is followed by a recalculation if any
    /// item is proportional. A refused change leaves the receipt as it was.
    pub fn update_item_at_index(
        &mut self,
        idx: usize,
        value: Option<Amount>,
        name: Option<String>,
        shared_by: Option<Vec<String>>,
        is_prop_dist: Option<bool>,
    ) -> (r: Result<(), SplittingError>)
        requires
            old(self)@.wf(),
        ensures
            ({
                let before = old(self)@;
                let staged = before.items.update(
                    idx as int,
                    edited_item(
                        before.shared_by,
                        before.items[idx as int],
                        value.deep_view(),
                        name.deep_view(),
                        shared_by.deep_view(),
                        is_prop_dist,
                    ),
                );
                let recalculates = any_proportional(staged) && (value is Some || shared_by is Some
                    || is_prop_dist is Some);
                let splittable = is_prop_dist == Some(true) ==> basis_besides(
                    before.items,
                    idx as int,
                );
                match r {
                    Ok(_) => {
                        &&& idx < before.items.len()
                        &&& splittable
                        &&& recalculates ==> refreshable(before.shared_by, staged)
                        &&& final(self)@ == before.with_items(
                            if recalculates {
                                refreshed(before.shared_by, staged)
                            } else {
                                staged
                            },
                        )
                        &&& final(self)@.wf()
                    },
                    Err(e) => {
                        &&& final(self)@ == before
                        &&& match e {
                            SplittingError::InvalidIndexError(_) => idx >= before.items.len(),
                            SplittingError::NotProportionallySplittableError(_) => idx
                                < before.items.len() && !splittable,
                            SplittingError::InternalError(_) => idx < before.items.len()
                                && splittable && recalculates && !refreshable(
                                before.shared_by,
                                staged,
                            ),
                            _ => false,
                        }
                    },
                }
            }),
    {
        if idx >= self.items.len() {
            return Err(
                SplittingError::InvalidIndexError(
                    "Provide index is outside the range of items present in the receipt".to_owned(),
                ),
            );
        }
        let makes_proportional = match is_prop_dist {
            Some(flag) => flag,
            None => false,
        };
        if makes_proportional && !self.is_proportionally_splittable(idx) {
            return Err(
                SplittingError::NotProportionallySplittableError(
                    "There aren't enough items left to split proportionally on".to_owned(),
                ),
            );
        }
        let touched = value.is_some() || shared_by.is_some() || is_prop_dist.is_some();
        let current = &self.items[idx];
        assert(current@ == self@.items[idx as int]);
        let new_value = match value {
            Some(v) => v,
            None => current.value,
        };
        let new_name = match name {
            Some(n) => n,
            None => current.name.clone(),
        };
        let edited = match is_prop_dist {
            Some(flag) => ReceiptItem {
                value: new_value,
                name: new_name,
                shared_by: clone_names(&self.shared_by),
                share_ratio: unit_weights(self.shared_by.len()),
                is_prop_dist: flag,
            },
            None => match shared_by {
                Some(sharers) => {
                    let weights = unit_weights(sharers.len());
                    ReceiptItem {
                        value: new_value,
                        name: new_name,
                        shared_by: sharers,
                        share_ratio: weights,
                        is_prop_dist: current.is_prop_dist,
                    }
                },
                None => ReceiptItem {
                    value: new_value,
                    name: new_name,
                    shared_by: clone_names(&current.shared_by),
                    share_ratio: clone_amounts(&current.share_ratio),
                    is_prop_dist: current.is_prop_dist,
                },
            },
        };
        let mut staged = clone_items(&self.items);
        staged.set(idx, edited);
        assert(staged.deep_view() =~= self@.items.update(idx as int, edited@));
        assert(all_aligned(staged.deep_view()));
        if touched && has_proportional(&staged) {
            if !refresh(&self.shared_by, &mut staged) {
                return Err(arithmetic_failure());
            }
        }
        self.items = staged;
        assert(self@.abbreviations() =~= old(self)@.abbreviations());
        Ok(())
    }

    /// Removes the item at `idx`, and recalculates the receipt.
    ///
    /// The last item split by ratio cannot be removed while there is a
    /// proportional item. A refused removal leaves the receipt as it was.
    pub fn remove_item_at_index(&mut self, idx: usize) -> (r: Result<(), SplittingError>)
        requires
            old(self)@.wf(),
        ensures
            ({
                let before = old(self)@;
                let staged = before.items.remove(idx as int);
                match r {
                    Ok(_) => {
                        &&& idx < before.items.len()
                        &&& !orphans(before.items, idx as int)
                        &&& refreshable(before.shared_by, staged)
                        &&& final(self)@ == before.with_items(refreshed(before.shared_by, staged))
                        &&& final(self)@.wf()
                    },
                    Err(e) => {
                        &&& final(self)@ == before
                        &&& match e {
                            SplittingError::InvalidIndexError(_) => idx >= before.items.len(),
                            SplittingError::NotProportionallySplittableError(_) => idx
                                < before.items.len() && orphans(before.items, idx as int),
                            SplittingError::InternalError(_) => idx < before.items.len() && !orphans(
                                before.items,
                                idx as int,
                            ) && !refreshable(before.shared_by, staged),
                            _ => false,
                        }
                    },
                }
            }),
    {
        if idx >= self.items.len() {
            return Err(
                SplittingError::InvalidIndexError("Provided index is out of bounds".to_owned()),
            );
        }
        assert(self.items[idx as int]@ == self@.items[idx as int]);
        if !self.items[idx].is_prop_dist && !self.is_proportionally_splittable(idx)
            && has_proportional(&self.items) {
            return Err(
                SplittingError::NotProportionallySplittableError(
                    "The last non-proportional item cannot be removed when there are proportional items in the receipt.".to_owned(),
                ),
            );
        }
        let mut staged = clone_items(&self.items);
        staged.remove(idx);
        assert(staged.deep_view() =~= self@.items.remove(idx as int));
        assert(all_aligned(staged.deep_view()));
        if !refresh(&self.shared_by, &mut staged) {
            return Err(arithmetic_failure());
        }
        self.items = staged;
        assert(self@.abbreviations() =~= old(self)@.abbreviations());
        Ok(())
    }
}

} // verus!
