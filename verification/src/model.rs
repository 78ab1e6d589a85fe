//! The receipt as a mathematical object, and what its operations compute.
//!
//! Everything here is specification. Amounts are [`Dec`]s, names are sequences
//! of characters, and a result that the decimal arithmetic cannot represent
//! is `None`; a `None` spreads to everything computed from it.

use crate::decimal::{decimal_difference, decimal_product, decimal_quotient, decimal_sum, Dec};
use vstd::prelude::*;

verus! {

/// `a + b`, if both are known and the sum can be represented.
pub open spec fn plus(a: Option<Dec>, b: Option<Dec>) -> Option<Dec> {
    match (a, b) {
        (Some(x), Some(y)) => decimal_sum(x, y),
        _ => None,
    }
}

/// `a - b`, if both are known and the difference can be represented.
pub open spec fn minus(a: Option<Dec>, b: Option<Dec>) -> Option<Dec> {
    match (a, b) {
        (Some(x), Some(y)) => decimal_difference(x, y),
        _ => None,
    }
}

/// `a * b`, if both are known and the product can be represented.
pub open spec fn times(a: Option<Dec>, b: Option<Dec>) -> Option<Dec> {
    match (a, b) {
        (Some(x), Some(y)) => decimal_product(x, y),
        _ => None,
    }
}

/// `a / b`, if both are known and the quotient exists and can be represented.
pub open spec fn over(a: Option<Dec>, b: Option<Dec>) -> Option<Dec> {
    match (a, b) {
        (Some(x), Some(y)) => decimal_quotient(x, y),
        _ => None,
    }
}

/// `a` rounded to two fractional digits, if it is known.
pub open spec fn round2(a: Option<Dec>) -> Option<Dec> {
    match a {
        Some(x) => Some(x.rounded(2)),
        None => None,
    }
}

/// The first `n` terms added to zero, one after the other.
pub open spec fn running_total(terms: Seq<Option<Dec>>, n: int) -> Option<Dec>
    decreases n,
{
    if n <= 0 {
        Some(Dec::zero())
    } else {
        plus(running_total(terms, n - 1), terms[n - 1])
    }
}

/// All the terms added to zero, one after the other.
pub open spec fn total(terms: Seq<Option<Dec>>) -> Option<Dec> {
    running_total(terms, terms.len() as int)
}

/// The values, each of them known.
pub open spec fn known(values: Seq<Dec>) -> Seq<Option<Dec>> {
    Seq::new(values.len(), |i: int| Some(values[i]))
}

/// The sum of the values, added to zero one after the other.
pub open spec fn sum_of(values: Seq<Dec>) -> Option<Dec> {
    total(known(values))
}

/// Whether every cell is known.
pub open spec fn all_known(cells: Seq<Option<Dec>>) -> bool {
    forall|i: int| 0 <= i < cells.len() ==> (#[trigger] cells[i]) is Some
}

/// The values of cells that are all known.
pub open spec fn values_of(cells: Seq<Option<Dec>>) -> Seq<Dec> {
    Seq::new(cells.len(), |i: int| cells[i]->0)
}

/// The values of the cells if all of them are known, `None` otherwise.
pub open spec fn gathered(cells: Seq<Option<Dec>>) -> Option<Seq<Dec>> {
    if all_known(cells) {
        Some(values_of(cells))
    } else {
        None
    }
}

/// `n` times the weight one: every sharer counts the same.
pub open spec fn ones(n: nat) -> Seq<Dec> {
    Seq::new(n, |i: int| Dec::one())
}

/// An item of a receipt.
pub struct ItemView {
    /// What the item costs.
    pub value: Dec,
    /// What the item is called.
    pub name: Seq<char>,
    /// Who shares the item.
    pub shared_by: Seq<Seq<char>>,
    /// The weight of each sharer, in the order of `shared_by`.
    pub share_ratio: Seq<Dec>,
    /// Whether the weights follow what the sharers owe for the other items.
    pub is_prop_dist: bool,
}

impl ItemView {
    /// Whether every sharer has a weight and every weight a sharer.
    pub open spec fn aligned(self) -> bool {
        self.shared_by.len() == self.share_ratio.len()
    }

    /// The sum of the weights.
    pub open spec fn weight_total(self) -> Option<Dec> {
        sum_of(self.share_ratio)
    }

    /// What `person` carries of the item when standings are worked out:
    /// their weight over the sum of the weights, times the item's value;
    /// zero for someone who does not share the item.
    pub open spec fn portion(self, person: Seq<char>) -> Option<Dec> {
        match self.shared_by.index_of_first(person) {
            Some(p) => times(
                over(Some(self.share_ratio[p]), self.weight_total()),
                Some(self.value),
            ),
            None => Some(Dec::zero()),
        }
    }

    /// The cell for `person` in the item's row of the split table: the
    /// item's value times their weight, over the sum of the weights, rounded
    /// to cents; zero for someone who does not share the item.
    pub open spec fn cell(self, person: Seq<char>) -> Option<Dec> {
        match self.shared_by.index_of_first(person) {
            Some(p) => round2(
                over(times(Some(self.value), Some(self.share_ratio[p])), self.weight_total()),
            ),
            None => Some(Dec::zero()),
        }
    }
}

/// Whether an item counts towards the standings.
pub open spec fn counts(item: ItemView, exclude_proportional: bool) -> bool {
    !(exclude_proportional && item.is_prop_dist)
}

/// What `person` owes for those of the first `n` items that count.
pub open spec fn standing_upto(
    items: Seq<ItemView>,
    n: int,
    person: Seq<char>,
    exclude_proportional: bool,
) -> Option<Dec>
    decreases n,
{
    if n <= 0 {
        Some(Dec::zero())
    } else if counts(items[n - 1], exclude_proportional) {
        plus(
            standing_upto(items, n - 1, person, exclude_proportional),
            items[n - 1].portion(person),
        )
    } else {
        standing_upto(items, n - 1, person, exclude_proportional)
    }
}

/// What `person` owes for the items that count.
pub open spec fn standing(
    items: Seq<ItemView>,
    person: Seq<char>,
    exclude_proportional: bool,
) -> Option<Dec> {
    standing_upto(items, items.len() as int, person, exclude_proportional)
}

/// The standing of each of the people, in their order.
pub open spec fn standings(
    people: Seq<Seq<char>>,
    items: Seq<ItemView>,
    exclude_proportional: bool,
) -> Seq<Option<Dec>> {
    Seq::new(people.len(), |j: int| standing(items, people[j], exclude_proportional))
}

/// The standings of those of the first `n` people who are among `shared_by`,
/// added up in the people's order.
pub open spec fn restricted_total_upto(
    people: Seq<Seq<char>>,
    items: Seq<ItemView>,
    shared_by: Seq<Seq<char>>,
    n: int,
) -> Option<Dec>
    decreases n,
{
    if n <= 0 {
        Some(Dec::zero())
    } else if shared_by.contains(people[n - 1]) {
        plus(
            restricted_total_upto(people, items, shared_by, n - 1),
            standing(items, people[n - 1], true),
        )
    } else {
        restricted_total_upto(people, items, shared_by, n - 1)
    }
}

/// The standings of the people who are among `shared_by`, added up.
pub open spec fn restricted_total(
    people: Seq<Seq<char>>,
    items: Seq<ItemView>,
    shared_by: Seq<Seq<char>>,
) -> Option<Dec> {
    restricted_total_upto(people, items, shared_by, people.len() as int)
}

/// The standing that a sharer brings to a proportional item: what they owe
/// for the items split by ratio, and zero for someone who is not among the
/// people of the receipt.
pub open spec fn base_standing(
    people: Seq<Seq<char>>,
    items: Seq<ItemView>,
    person: Seq<char>,
) -> Option<Dec> {
    if people.contains(person) {
        standing(items, person, true)
    } else {
        Some(Dec::zero())
    }
}

/// The share of `value` that falls to the `k`-th of `shared_by` when `value`
/// is split in proportion to the standings: their standing over the
/// standings of all the sharers, times `value`, rounded to cents.
pub open spec fn proportional_share(
    people: Seq<Seq<char>>,
    items: Seq<ItemView>,
    shared_by: Seq<Seq<char>>,
    value: Dec,
    k: int,
) -> Option<Dec> {
    round2(
        times(
            over(
                base_standing(people, items, shared_by[k]),
                restricted_total(people, items, shared_by),
            ),
            Some(value),
        ),
    )
}

/// The proportional share of each of `shared_by`, in their order.
pub open spec fn proportional_shares(
    people: Seq<Seq<char>>,
    items: Seq<ItemView>,
    shared_by: Seq<Seq<char>>,
    value: Dec,
) -> Seq<Option<Dec>> {
    Seq::new(shared_by.len(), |k: int| proportional_share(people, items, shared_by, value, k))
}

/// The weights of a proportional item worth `value` and shared by
/// `shared_by`; `None` if a standing or a share cannot be worked out.
pub open spec fn derived_ratio(
    people: Seq<Seq<char>>,
    items: Seq<ItemView>,
    shared_by: Seq<Seq<char>>,
    value: Dec,
) -> Option<Seq<Dec>> {
    if all_known(standings(people, items, true)) {
        gathered(proportional_shares(people, items, shared_by, value))
    } else {
        None
    }
}

/// An item as it is after recalculation: a proportional item gets its
/// weights derived anew, any other item stays as it is.
pub open spec fn refreshed_item(
    people: Seq<Seq<char>>,
    items: Seq<ItemView>,
    item: ItemView,
) -> Option<ItemView> {
    if item.is_prop_dist {
        match derived_ratio(people, items, item.shared_by, item.value) {
            Some(ratio) => Some(ItemView { share_ratio: ratio, ..item }),
            None => None,
        }
    } else {
        Some(item)
    }
}

/// Whether every item can be recalculated.
pub open spec fn refreshable(people: Seq<Seq<char>>, items: Seq<ItemView>) -> bool {
    forall|i: int| 0 <= i < items.len() ==> refreshed_item(people, items, #[trigger] items[i]) is Some
}

/// The items after recalculation.
pub open spec fn refreshed(people: Seq<Seq<char>>, items: Seq<ItemView>) -> Seq<ItemView> {
    Seq::new(items.len(), |i: int| refreshed_item(people, items, items[i])->0)
}

/// Whether every item has a weight for every sharer.
pub open spec fn all_aligned(items: Seq<ItemView>) -> bool {
    forall|i: int| 0 <= i < items.len() ==> (#[trigger] items[i]).aligned()
}

/// Whether some item is proportional.
pub open spec fn any_proportional(items: Seq<ItemView>) -> bool {
    exists|i: int| 0 <= i < items.len() && (#[trigger] items[i]).is_prop_dist
}

/// Whether some item other than the one at `index` is split by ratio.
pub open spec fn basis_besides(items: Seq<ItemView>, index: int) -> bool {
    exists|i: int| 0 <= i < items.len() && i != index && !(#[trigger] items[i]).is_prop_dist
}

/// Whether the proportional items, if there are any, have an item split by
/// ratio to follow.
pub open spec fn has_basis(items: Seq<ItemView>) -> bool {
    any_proportional(items) ==> exists|i: int|
        0 <= i < items.len() && !(#[trigger] items[i]).is_prop_dist
}

/// Whether removing the item at `index` would leave proportional items with
/// no item split by ratio to follow.
pub open spec fn orphans(items: Seq<ItemView>, index: int) -> bool {
    &&& !items[index].is_prop_dist
    &&& !basis_besides(items, index)
    &&& any_proportional(items)
}

/// An item after an update. A value, a name or sharers that are given
/// replace the old ones, and new sharers count the same. An item that is made
/// proportional, or is no longer to be, is shared by all the `people`, with
/// the same weight for each until the receipt is recalculated.
pub open spec fn edited_item(
    people: Seq<Seq<char>>,
    item: ItemView,
    value: Option<Dec>,
    name: Option<Seq<char>>,
    shared_by: Option<Seq<Seq<char>>>,
    is_prop_dist: Option<bool>,
) -> ItemView {
    let value = match value {
        Some(v) => v,
        None => item.value,
    };
    let name = match name {
        Some(n) => n,
        None => item.name,
    };
    match is_prop_dist {
        Some(flag) => ItemView {
            value,
            name,
            shared_by: people,
            share_ratio: ones(people.len()),
            is_prop_dist: flag,
        },
        None => match shared_by {
            Some(sharers) => ItemView {
                value,
                name,
                shared_by: sharers,
                share_ratio: ones(sharers.len()),
                is_prop_dist: item.is_prop_dist,
            },
            None => ItemView { value, name, ..item },
        },
    }
}

/// The column `c` of a table.
pub open spec fn column(rows: Seq<Seq<Option<Dec>>>, c: int) -> Seq<Option<Dec>> {
    Seq::new(rows.len(), |r: int| rows[r][c])
}

/// The label of the row that splits what the items leave over.
pub open spec fn leftover_label() -> Seq<char> {
    "<leftover>"@
}

/// The label of the row of totals.
pub open spec fn total_label() -> Seq<char> {
    "<total>"@
}

/// The abbreviations of a list of learned abbreviations, without the people
/// they stand for.
pub open spec fn abbreviations_of(learned: Seq<(Seq<char>, Seq<char>)>) -> Seq<Seq<char>> {
    Seq::new(learned.len(), |i: int| learned[i].0)
}

/// How working out the split table of a receipt ends.
pub enum SplitOutcome {
    /// The table can be worked out.
    Table,
    /// The items add up to more than the receipt.
    Exceeds,
    /// The decimal arithmetic cannot represent a cell.
    Unrepresentable,
}

/// A receipt.
pub struct ReceiptView {
    /// The total of the receipt.
    pub value: Dec,
    /// The people who share the receipt, in the order in which they are shown.
    pub shared_by: Seq<Seq<char>>,
    /// The abbreviations learned so far, each with the person it stands for.
    pub mapped_abbreviations: Seq<(Seq<char>, Seq<char>)>,
    /// The items, in the order in which they were added.
    pub items: Seq<ItemView>,
}

impl ReceiptView {
    /// The abbreviations learned so far.
    pub open spec fn abbreviations(self) -> Seq<Seq<char>> {
        abbreviations_of(self.mapped_abbreviations)
    }

    /// What holds of every receipt: at least two people and none of them
    /// twice, a weight for every sharer of every item, and no abbreviation
    /// learned twice.
    pub open spec fn wf(self) -> bool {
        &&& self.shared_by.len() >= 2
        &&& self.shared_by.no_duplicates()
        &&& all_aligned(self.items)
        &&& self.abbreviations().no_duplicates()
    }

    /// The receipt with other items.
    pub open spec fn with_items(self, items: Seq<ItemView>) -> ReceiptView {
        ReceiptView { items, ..self }
    }

    /// The values of the items, in their order.
    pub open spec fn item_values(self) -> Seq<Dec> {
        Seq::new(self.items.len(), |i: int| self.items[i].value)
    }

    /// The sum of the items' values.
    pub open spec fn itemized_total(self) -> Option<Dec> {
        sum_of(self.item_values())
    }

    /// What the items leave of the receipt's total.
    pub open spec fn leftover(self) -> Option<Dec> {
        minus(Some(self.value), self.itemized_total())
    }

    /// Whether the items leave something over, so that the split table has a
    /// row for it.
    pub open spec fn shows_leftover(self) -> bool {
        self.leftover() matches Some(l) && l.mantissa > 0
    }

    /// The row of the item at `i`: a cell for each person, then the item's
    /// value.
    pub open spec fn item_row(self, i: int) -> Seq<Option<Dec>> {
        Seq::new(
            self.shared_by.len() + 1,
            |c: int|
                if c < self.shared_by.len() {
                    self.items[i].cell(self.shared_by[c])
                } else {
                    Some(self.items[i].value)
                },
        )
    }

    /// The standings of all the people, added up.
    pub open spec fn standing_total(self) -> Option<Dec> {
        total(standings(self.shared_by, self.items, true))
    }

    /// The cell for `person` in the leftover row: their standing times the
    /// leftover, over the sum of the standings, rounded to cents.
    pub open spec fn leftover_cell(self, person: Seq<char>) -> Option<Dec> {
        round2(over(times(standing(self.items, person, true), self.leftover()), self.standing_total()))
    }

    /// The leftover row: a cell for each person, then the leftover.
    pub open spec fn leftover_row(self) -> Seq<Option<Dec>> {
        Seq::new(
            self.shared_by.len() + 1,
            |c: int|
                if c < self.shared_by.len() {
                    self.leftover_cell(self.shared_by[c])
                } else {
                    self.leftover()
                },
        )
    }

    /// The rows of the items.
    pub open spec fn item_rows(self) -> Seq<Seq<Option<Dec>>> {
        Seq::new(self.items.len(), |i: int| self.item_row(i))
    }

    /// The rows above the totals: one for each item, then the leftover row
    /// if something is left over.
    pub open spec fn body(self) -> Seq<Seq<Option<Dec>>> {
        if self.shows_leftover() {
            self.item_rows().push(self.leftover_row())
        } else {
            self.item_rows()
        }
    }

    /// The row of totals: each column of the body added up and rounded to
    /// cents.
    pub open spec fn total_row(self) -> Seq<Option<Dec>> {
        Seq::new(self.shared_by.len() + 1, |c: int| round2(total(column(self.body(), c))))
    }

    /// The split table: the body, then the row of totals.
    pub open spec fn table(self) -> Seq<Seq<Option<Dec>>> {
        self.body().push(self.total_row())
    }

    /// Whether every cell of the split table can be worked out.
    pub open spec fn table_known(self) -> bool {
        forall|r: int| 0 <= r < self.table().len() ==> all_known(#[trigger] self.table()[r])
    }

    /// How working out the split table ends: with the table, unless the
    /// items add up to more than the receipt or a cell cannot be represented.
    pub open spec fn split_outcome(self) -> SplitOutcome {
        match self.leftover() {
            None => SplitOutcome::Unrepresentable,
            Some(l) => if l.mantissa < 0 {
                SplitOutcome::Exceeds
            } else if self.table_known() {
                SplitOutcome::Table
            } else {
                SplitOutcome::Unrepresentable
            },
        }
    }

    /// The split table, cell by cell.
    pub open spec fn split_rows(self) -> Seq<Seq<Dec>> {
        Seq::new(self.table().len(), |r: int| values_of(self.table()[r]))
    }

    /// The names of the items, in their order.
    pub open spec fn item_names(self) -> Seq<Seq<char>> {
        Seq::new(self.items.len(), |i: int| self.items[i].name)
    }

    /// The labels of the rows of the split table.
    pub open spec fn row_labels(self) -> Seq<Seq<char>> {
        if self.shows_leftover() {
            self.item_names().push(leftover_label()).push(total_label())
        } else {
            self.item_names().push(total_label())
        }
    }
}

/// A split table with a missing cell is not known.
pub proof fn lemma_missing_cell(receipt: ReceiptView, r: int, c: int)
    requires
        0 <= r < receipt.table().len(),
        0 <= c < receipt.table()[r].len(),
        receipt.table()[r][c] is None,
    ensures
        !receipt.table_known(),
{
    assert(!all_known(receipt.table()[r]));
}

/// Once a running total is missing, it stays missing.
pub proof fn lemma_running_total_stays_missing(terms: Seq<Option<Dec>>, k: int, n: int)
    requires
        k <= n,
        running_total(terms, k) is None,
    ensures
        running_total(terms, n) is None,
    decreases n - k,
{
    if k < n {
        lemma_running_total_stays_missing(terms, k, n - 1);
    }
}

/// A running total looks only at the terms it adds.
pub proof fn lemma_running_total_same(a: Seq<Option<Dec>>, b: Seq<Option<Dec>>, n: int)
    requires
        n <= a.len(),
        n <= b.len(),
        forall|i: int| 0 <= i < n ==> a[i] == b[i],
    ensures
        running_total(a, n) == running_total(b, n),
    decreases n,
{
    if n > 0 {
        lemma_running_total_same(a, b, n - 1);
    }
}

/// Once a standing is missing, it stays missing.
pub proof fn lemma_standing_stays_missing(
    items: Seq<ItemView>,
    k: int,
    n: int,
    person: Seq<char>,
    exclude_proportional: bool,
)
    requires
        k <= n,
        standing_upto(items, k, person, exclude_proportional) is None,
    ensures
        standing_upto(items, n, person, exclude_proportional) is None,
    decreases n - k,
{
    if k < n {
        lemma_standing_stays_missing(items, k, n - 1, person, exclude_proportional);
    }
}

/// Once a restricted total is missing, it stays missing.
pub proof fn lemma_restricted_total_stays_missing(
    people: Seq<Seq<char>>,
    items: Seq<ItemView>,
    shared_by: Seq<Seq<char>>,
    k: int,
    n: int,
)
    requires
        k <= n,
        restricted_total_upto(people, items, shared_by, k) is None,
    ensures
        restricted_total_upto(people, items, shared_by, n) is None,
    decreases n - k,
{
    if k < n {
        lemma_restricted_total_stays_missing(people, items, shared_by, k, n - 1);
    }
}

} // verus!
