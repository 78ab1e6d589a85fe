//! What a splitting session decides between two screens: which names were
//! entered, whether the splits can be shown, who shares an item after a
//! click, and which groups of people are remembered.

use crate::decimal::{Amount, Dec};
use crate::model::{ItemView, SplitOutcome};
use crate::receipt::Receipt;
use crate::text::{clone_names, find_name};
use vstd::prelude::*;

verus! {

/// How the items stand against the total of the receipt.
#[derive(Clone, Copy, Debug, PartialEq, Eq)]
pub enum Balance {
    /// The items leave something of the total.
    Left,
    /// The items add up to more than the total.
    Exceeded,
    /// The items add up to the total.
    Settled,
}

/// How the items stand against the total, going by what they leave of it.
pub fn balance_of(leftover: Amount) -> (r: Balance)
    ensures
        r == if leftover@.mantissa > 0 {
            Balance::Left
        } else if leftover@.mantissa < 0 {
            Balance::Exceeded
        } else {
            Balance::Settled
        },
{
    if leftover.is_positive() {
        Balance::Left
    } else if leftover.is_negative() {
        Balance::Exceeded
    } else {
        Balance::Settled
    }
}

/// Those of the first `n` names that are not empty, in their order.
pub open spec fn filled_upto(inputs: Seq<Seq<char>>, n: int) -> Seq<Seq<char>>
    decreases n,
{
    if n <= 0 {
        Seq::empty()
    } else if inputs[n - 1].len() > 0 {
        filled_upto(inputs, n - 1).push(inputs[n - 1])
    } else {
        filled_upto(inputs, n - 1)
    }
}

/// The names that were entered: those of the inputs that are not empty, in
/// their order.
pub fn entered_names(inputs: &Vec<String>) -> (r: Vec<String>)
    ensures
        r.deep_view() == filled_upto(inputs.deep_view(), inputs.len() as int),
{
    let mut out: Vec<String> = Vec::new();
    assert(out.deep_view() =~= filled_upto(inputs.deep_view(), 0));
    for i in 0..inputs.len()
        invariant
            out.deep_view() == filled_upto(inputs.deep_view(), i as int),
    {
        let ghost before = out.deep_view();
        assert(inputs.deep_view()[i as int] == inputs@[i as int]@);
        if !inputs[i].as_str().is_empty() {
            out.push(inputs[i].clone());
            assert(out.deep_view() =~= before.push(inputs@[i as int]@));
        }
    }
    out
}

/// An item after a click on a person: someone who shares the item no longer
/// does, unless nobody else shares it; someone who does not share it does
/// from now on, with the weight one.
pub open spec fn toggled(item: ItemView, person: Seq<char>) -> ItemView {
    match item.shared_by.index_of_first(person) {
        Some(p) => if item.shared_by.len() > 1 {
            ItemView {
                shared_by: item.shared_by.remove(p),
                share_ratio: item.share_ratio.remove(p),
                ..item
            }
        } else {
            item
        },
        None => ItemView {
            shared_by: item.shared_by.push(person),
            share_ratio: item.share_ratio.push(Dec::one()),
            ..item
        },
    }
}

/// The groups that are remembered once `group` was used, if that changes
/// anything: the oldest group makes room where more than one is remembered,
/// and `group` comes last unless it is still among them.
pub open spec fn remembered(cache: Seq<Seq<Seq<char>>>, group: Seq<Seq<char>>) -> Option<
    Seq<Seq<Seq<char>>>,
> {
    let kept = if cache.len() > 1 {
        cache.drop_first()
    } else {
        cache
    };
    if kept.contains(group) {
        None
    } else {
        Some(kept.push(group))
    }
}

/// Whether two groups hold the same names in the same order.
fn same_group(a: &Vec<String>, b: &Vec<String>) -> (r: bool)
    ensures
        r == (a.deep_view() == b.deep_view()),
{
    if a.len() != b.len() {
        assert(a.deep_view().len() != b.deep_view().len());
        return false;
    }
    for i in 0..a.len()
        invariant
            a.len() == b.len(),
            forall|j: int| 0 <= j < i ==> a@[j]@ == b@[j]@,
    {
        if a[i] != b[i] {
            assert(a.deep_view()[i as int] != b.deep_view()[i as int]);
            return false;
        }
    }
    assert(a.deep_view() =~= b.deep_view());
    true
}

/// The groups to remember once `group` was used, or `None` if what is
/// remembered stays as it is.
pub fn remember_group(cache: Vec<Vec<String>>, group: Vec<String>) -> (r: Option<Vec<Vec<String>>>)
    ensures
        r.deep_view() == remembered(cache.deep_view(), group.deep_view()),
{
    let ghost old_cache = cache.deep_view();
    let mut kept = cache;
    if kept.len() > 1 {
        kept.remove(0);
        assert(kept.deep_view() =~= old_cache.drop_first());
    }
    let ghost kept_view = kept.deep_view();
    assert(kept_view == if old_cache.len() > 1 {
        old_cache.drop_first()
    } else {
        old_cache
    });
    for i in 0..kept.len()
        invariant
            old_cache == cache.deep_view(),
            kept_view == if old_cache.len() > 1 {
                old_cache.drop_first()
            } else {
                old_cache
            },
            kept_view == kept.deep_view(),
            forall|j: int| 0 <= j < i ==> kept_view[j] != group.deep_view(),
    {
        if same_group(&kept[i], &group) {
            assert(kept_view[i as int] == group.deep_view());
            return None;
        }
    }
    let ghost wanted = group.deep_view();
    kept.push(group);
    assert(kept.deep_view() =~= kept_view.push(wanted));
    Some(kept)
}

/// The `n` groups used last, the last one first.
pub open spec fn latest(cache: Seq<Seq<Seq<char>>>, n: nat) -> Seq<Seq<Seq<char>>> {
    let count = if cache.len() < n {
        cache.len()
    } else {
        n
    };
    Seq::new(count, |i: int| cache[cache.len() - 1 - i])
}

/// The three groups used last, the last one first.
pub fn recent_groups(cache: &Vec<Vec<String>>) -> (r: Vec<Vec<String>>)
    ensures
        r.deep_view() == latest(cache.deep_view(), 3),
{
    let count: usize = if cache.len() < 3 {
        cache.len()
    } else {
        3
    };
    let mut out: Vec<Vec<String>> = Vec::new();
    for i in 0..count
        invariant
            count <= cache.len(),
            count <= 3,
            out.len() == i,
            forall|j: int|
                0 <= j < i ==> (#[trigger] out@[j]).deep_view() == cache@[cache.len() - 1 - j].deep_view(),
    {
        out.push(clone_names(&cache[cache.len() - 1 - i]));
    }
    assert(out.deep_view() =~= latest(cache.deep_view(), 3));
    out
}

impl Receipt {
    /// Whether the splits are ready to be shown: there is an item, every item
    /// is worth something, and the split table can be worked out.
    pub fn can_show_splits(&self) -> (r: bool)
        requires
            self@.wf(),
        ensures
            r == (self@.items.len() > 0 && (forall|i: int|
                0 <= i < self@.items.len() ==> (#[trigger] self@.items[i]).value.mantissa > 0)
                && self@.split_outcome() == SplitOutcome::Table),
    {
        if self.items.len() == 0 {
            return false;
        }
        for i in 0..self.items.len()
            invariant
                forall|j: int| 0 <= j < i ==> (#[trigger] self@.items[j]).value.mantissa > 0,
        {
            if !self.items[i].value.is_positive() {
                assert(!(self@.items[i as int].value.mantissa > 0));
                return false;
            }
        }
        self.calculate_splits().is_ok()
    }

    /// Takes a click on `person` for the item at `item_idx`: if they share
    /// the item they no longer do, unless nobody else shares it; if they do
    /// not, they do from now on, with the weight one. Nothing happens where
    /// there is no such item.
    pub fn toggle_sharer(&mut self, item_idx: usize, person: &str)
        requires
            old(self)@.wf(),
        ensures
            final(self)@.wf(),
            final(self)@ == if item_idx < old(self)@.items.len() {
                old(self)@.with_items(
                    old(self)@.items.update(
                        item_idx as int,
                        toggled(old(self)@.items[item_idx as int], person@),
                    ),
                )
            } else {
                old(self)@
            },
    {
        if item_idx >= self.items.len() {
            return ;
        }
        let ghost before = self@;
        let ghost item = before.items[item_idx as int];
        assert(self.items[item_idx as int]@ == item);
        assert(item.aligned());
        match find_name(&self.items[item_idx].shared_by, person) {
            Some(p) => {
                proof {
                    item.shared_by.index_of_first_ensures(person@);
                }
                if self.items[item_idx].shared_by.len() > 1 {
                    self.items[item_idx].shared_by.remove(p);
                    self.items[item_idx].share_ratio.remove(p);
                    proof {
                        let after = self.items[item_idx as int]@;
                        assert(after.shared_by =~= item.shared_by.remove(p as int));
                        assert(after.share_ratio =~= item.share_ratio.remove(p as int));
                    }
                }
            },
            None => {
                self.items[item_idx].shared_by.push(person.to_owned());
                self.items[item_idx].share_ratio.push(Amount::one());
                proof {
                    let after = self.items[item_idx as int]@;
                    assert(after.shared_by =~= item.shared_by.push(person@));
                    assert(after.share_ratio =~= item.share_ratio.push(Dec::one()));
                }
            },
        }
        proof {
            let want = before.items.update(item_idx as int, toggled(item, person@));
            assert(self@.items =~= want) by {
                assert forall|k: int| 0 <= k < want.len() implies self@.items[k] == want[k] by {
                    if k != item_idx {
                        assert(self.items@[k] == old(self).items@[k]);
                    }
                }
            }
            assert(self@.abbreviations() =~= before.abbreviations());
        }
    }
}

} // verus!
