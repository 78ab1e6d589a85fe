//! The split table: who owes what, item by item.

use crate::decimal::{Amount, Dec};
use crate::error::SplittingError;
use crate::model::{
    all_known, column, known, lemma_missing_cell, lemma_running_total_stays_missing, round2,
    running_total, standing, standings, total, values_of, SplitOutcome,
};
use crate::proportion::{arithmetic_failure, standings_of, sum_amounts};
use crate::receipt::{Receipt, ReceiptItem};
use crate::text::find_name;
use vstd::prelude::*;
use vstd::string::StringExecFns;

verus! {

/// The cell for `person` in the row of `item`, given the sum of the item's
/// weights.
fn item_cell(item: &ReceiptItem, weight_total: Option<Amount>, person: &str) -> (r: Option<Amount>)
    requires
        item@.aligned(),
        weight_total.deep_view() == item@.weight_total(),
    ensures
        r.deep_view() == item@.cell(person@),
{
    match find_name(&item.shared_by, person) {
        Some(p) => match weight_total {
            Some(t) => match item.value.checked_mul(item.share_ratio[p]) {
                Some(m) => match m.checked_div(t) {
                    Some(q) => Some(q.round_dp(2)),
                    None => None,
                },
                None => None,
            },
            None => None,
        },
        None => Some(Amount::zero()),
    }
}

/// The column `c` of the rows, added up and rounded to cents.
fn column_total(rows: &Vec<Vec<Amount>>, c: usize, Ghost(body): Ghost<Seq<Seq<Option<Dec>>>>) -> (r:
    Option<Amount>)
    requires
        body.len() == rows.len(),
        forall|i: int| 0 <= i < rows.len() ==> c < (#[trigger] rows@[i]).len(),
        forall|i: int| 0 <= i < rows.len() ==> (#[trigger] body[i])[c as int] == Some(rows@[i]@[c as int]@),
    ensures
        r.deep_view() == round2(total(column(body, c as int))),
{
    let mut acc = Amount::zero();
    for i in 0..rows.len()
        invariant
            body.len() == rows.len(),
            forall|i: int| 0 <= i < rows.len() ==> c < (#[trigger] rows@[i]).len(),
            forall|i: int|
                0 <= i < rows.len() ==> (#[trigger] body[i])[c as int] == Some(rows@[i]@[c as int]@),
            running_total(column(body, c as int), i as int) == Some(acc@),
    {
        assert(column(body, c as int)[i as int] == body[i as int][c as int]);
        match acc.checked_add(rows[i][c]) {
            Some(next) => {
                acc = next;
            },
            None => {
                proof {
                    lemma_running_total_stays_missing(
                        column(body, c as int),
                        i + 1,
                        rows.len() as int,
                    );
                }
                return None;
            },
        }
    }
    Some(acc.round_dp(2))
}

impl Receipt {
    /// The sum of the items' values, and what it leaves of the receipt's
    /// total. Fails where either cannot be represented.
    pub fn get_itemized_total_and_leftover(&self) -> (r: Result<(Amount, Amount), SplittingError>)
        ensures
            match r {
                Ok((itemized, leftover)) => self@.itemized_total() == Some(itemized@)
                    && self@.leftover() == Some(leftover@),
                Err(e) => e is InternalError && self@.leftover() is None,
            },
    {
        let ghost terms = known(self@.item_values());
        let mut itemized = Amount::zero();
        for i in 0..self.items.len()
            invariant
                terms == known(self@.item_values()),
                running_total(terms, i as int) == Some(itemized@),
        {
            assert(terms[i as int] == Some(self.items@[i as int].value@));
            match itemized.checked_add(self.items[i].value) {
                Some(next) => {
                    itemized = next;
                },
                None => {
                    proof {
                        lemma_running_total_stays_missing(terms, i + 1, terms.len() as int);
                    }
                    return Err(arithmetic_failure());
                },
            }
        }
        match self.value.checked_sub(itemized) {
            Some(leftover) => Ok((itemized, leftover)),
            None => Err(arithmetic_failure()),
        }
    }

    /// The split table: the labels of its rows, and the rows.
    ///
    /// There is a row for each item, a row labelled `<leftover>` if the items
    /// leave something of the receipt's total, and a row labelled `<total>`.
    /// A row has a cell for each of the people, in their order, and a last
    /// cell for the row as a whole: the item's value, the leftover, the sum of
    /// the column. Every cell of a person is rounded to cents, and the totals
    /// add up the rounded cells.
    ///
    /// Fails where the items add up to more than the receipt, and where a
    /// cell cannot be represented.
    pub fn calculate_splits(&self) -> (r: Result<(Vec<&str>, Vec<Vec<Amount>>), SplittingError>)
        requires
            self@.wf(),
        ensures
            match self@.split_outcome() {
                SplitOutcome::Table => r matches Ok((labels, rows)) && labels.deep_view()
                    == self@.row_labels() && rows.deep_view() == self@.split_rows(),
                SplitOutcome::Exceeds => r matches Err(
                    SplittingError::ItemTotalExceedsReceiptTotal(_),
                ),
                SplitOutcome::Unrepresentable => r matches Err(SplittingError::InternalError(_)),
            },
    {
        let (itemized, leftover) = match self.get_itemized_total_and_leftover() {
            Ok(pair) => pair,
            Err(e) => {
                return Err(e);
            },
        };
        if leftover.is_negative() {
            let mut msg = "The itemized total amount ".to_owned();
            msg.append(itemized.to_text().as_str());
            msg.append(" exceeds the receipt's total amount ");
            msg.append(self.value.to_text().as_str());
            msg.append(" by ");
            msg.append(leftover.to_text().as_str());
            return Err(SplittingError::ItemTotalExceedsReceiptTotal(msg));
        }
        let n = self.shared_by.len();
        let ghost me = self@;
        let ghost people = me.shared_by;
        let ghost table = me.table();
        let ghost body = me.body();
        let mut rows: Vec<Vec<Amount>> = Vec::new();
        let mut labels: Vec<&str> = Vec::new();
        for i in 0..self.items.len()
            invariant
                me == self@,
                me.wf(),
                people == me.shared_by,
                n == self.shared_by.len(),
                table == me.table(),
                body == me.body(),
                me.leftover() == Some(leftover@),
                leftover@.mantissa >= 0,
                rows.len() == i,
                labels.len() == i,
                forall|k: int| 0 <= k < i ==> (#[trigger] labels@[k])@ == me.items[k].name,
                forall|k: int| 0 <= k < i ==> (#[trigger] rows@[k]).len() == n + 1,
                forall|k: int, c: int|
                    0 <= k < i && 0 <= c <= n ==> (#[trigger] body[k][c]) == Some(rows@[k]@[c]@),
        {
            let item = &self.items[i];
            assert(item@ == me.items[i as int]);
            assert(body[i as int] == me.item_row(i as int));
            assert(table[i as int] == body[i as int]);
            let weight_total = sum_amounts(&item.share_ratio);
            let mut row: Vec<Amount> = Vec::new();
            for c in 0..n
                invariant
                    me == self@,
                    people == me.shared_by,
                    n == self.shared_by.len(),
                    table == me.table(),
                    body == me.body(),
                    me.leftover() == Some(leftover@),
                    leftover@.mantissa >= 0,
                    i < self.items.len(),
                    item@ == me.items[i as int],
                    item@.aligned(),
                    weight_total.deep_view() == item@.weight_total(),
                    body[i as int] == me.item_row(i as int),
                    table[i as int] == body[i as int],
                    row.len() == c,
                    forall|k: int| 0 <= k < c ==> (#[trigger] body[i as int][k]) == Some(row@[k]@),
            {
                let person = self.shared_by[c].as_str();
                assert(person@ == people[c as int]);
                match item_cell(item, weight_total, person) {
                    Some(cell) => {
                        row.push(cell);
                    },
                    None => {
                        proof {
                            lemma_missing_cell(me, i as int, c as int);
                        }
                        return Err(arithmetic_failure());
                    },
                }
            }
            row.push(item.value);
            rows.push(row);
            labels.push(item.name.as_str());
        }
        if leftover.is_positive() {
            assert(me.shows_leftover());
            let ghost at = me.items.len() as int;
            assert(body[at] == me.leftover_row());
            assert(table[at] == body[at]);
            let owed = match standings_of(&self.shared_by, &self.items, true) {
                Some(v) => v,
                None => {
                    proof {
                        let cells = standings(people, me.items, true);
                        let j = choose|j: int| 0 <= j < cells.len() && cells[j] is None;
                        lemma_missing_cell(me, at, j);
                    }
                    return Err(arithmetic_failure());
                },
            };
            proof {
                let cells = standings(people, me.items, true);
                assert(owed.deep_view().len() == cells.len());
                assert forall|j: int| 0 <= j < n implies standing(me.items, #[trigger] people[j], true)
                    == Some(owed@[j]@) by {
                    assert(owed.deep_view()[j] == values_of(cells)[j]);
                    assert(cells[j] is Some);
                }
                assert(known(owed.deep_view()) =~= cells);
            }
            let among = match sum_amounts(&owed) {
                Some(t) => t,
                None => {
                    proof {
                        lemma_missing_cell(me, at, 0);
                    }
                    return Err(arithmetic_failure());
                },
            };
            let mut row: Vec<Amount> = Vec::new();
            for c in 0..n
                invariant
                    me == self@,
                    people == me.shared_by,
                    n == self.shared_by.len(),
                    table == me.table(),
                    body == me.body(),
                    me.shows_leftover(),
                    leftover@.mantissa >= 0,
                    at == me.items.len(),
                    body[at] == me.leftover_row(),
                    table[at] == body[at],
                    owed.len() == n,
                    me.leftover() == Some(leftover@),
                    me.standing_total() == Some(among@),
                    forall|j: int|
                        0 <= j < n ==> standing(me.items, #[trigger] people[j], true) == Some(
                            owed@[j]@,
                        ),
                    row.len() == c,
                    forall|k: int| 0 <= k < c ==> (#[trigger] body[at][k]) == Some(row@[k]@),
            {
                assert(body[at][c as int] == me.leftover_cell(people[c as int]));
                let cell = match owed[c].checked_mul(leftover) {
                    Some(m) => m.checked_div(among),
                    None => None,
                };
                match cell {
                    Some(q) => {
                        row.push(q.round_dp(2));
                    },
                    None => {
                        proof {
                            lemma_missing_cell(me, at, c as int);
                        }
                        return Err(arithmetic_failure());
                    },
                }
            }
            row.push(leftover);
            rows.push(row);
            labels.push("<leftover>");
        }
        assert(rows.len() == body.len());
        assert(forall|k: int| 0 <= k < rows.len() ==> (#[trigger] rows@[k]).len() == n + 1);
        assert(forall|k: int, c: int|
            0 <= k < rows.len() && 0 <= c <= n ==> (#[trigger] body[k][c]) == Some(rows@[k]@[c]@));
        let ghost last = body.len() as int;
        assert(table[last] == me.total_row());
        let mut totals: Vec<Amount> = Vec::new();
        for c in 0..n
            invariant
                me == self@,
                n == self.shared_by.len(),
                table == me.table(),
                body == me.body(),
                me.leftover() == Some(leftover@),
                leftover@.mantissa >= 0,
                last == body.len(),
                table[last] == me.total_row(),
                rows.len() == body.len(),
                forall|k: int| 0 <= k < rows.len() ==> (#[trigger] rows@[k]).len() == n + 1,
                forall|k: int, c: int|
                    0 <= k < rows.len() && 0 <= c <= n ==> (#[trigger] body[k][c]) == Some(
                        rows@[k]@[c]@,
                    ),
                totals.len() == c,
                forall|k: int| 0 <= k < c ==> (#[trigger] table[last][k]) == Some(totals@[k]@),
        {
            match column_total(&rows, c, Ghost(body)) {
                Some(t) => {
                    totals.push(t);
                },
                None => {
                    proof {
                        lemma_missing_cell(me, last, c as int);
                    }
                    return Err(arithmetic_failure());
                },
            }
        }
        match column_total(&rows, n, Ghost(body)) {
            Some(t) => {
                totals.push(t);
            },
            None => {
                proof {
                    lemma_missing_cell(me, last, n as int);
                }
                return Err(arithmetic_failure());
            },
        }
        rows.push(totals);
        labels.push("<total>");
        proof {
            assert forall|r: int| 0 <= r < table.len() implies all_known(#[trigger] table[r])
                && values_of(table[r]) == rows.deep_view()[r] by {
                let cells = table[r];
                assert(cells.len() == n + 1);
                assert forall|c: int| 0 <= c < cells.len() implies (#[trigger] cells[c]) == Some(
                    rows@[r]@[c]@,
                ) by {
                    if r < last {
                        assert(table[r] == body[r]);
                        assert(body[r][c] == Some(rows@[r]@[c]@));
                    }
                }
                assert(values_of(cells) =~= rows.deep_view()[r]);
            }
            assert(rows.deep_view() =~= me.split_rows());
            assert(labels.deep_view() =~= me.row_labels());
        }
        Ok((labels, rows))
    }
}

} // verus!
