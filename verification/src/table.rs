//! The split table as text, ready to be shown.

use crate::decimal::{decimal_text, Dec};
use crate::error::SplittingError;
use crate::model::{leftover_label, total_label, ReceiptView, SplitOutcome};
use crate::receipt::Receipt;
use vstd::prelude::*;

verus! {

/// What a row of the split table stands for.
#[derive(Clone, Copy, Debug, PartialEq, Eq)]
pub enum RowKind {
    /// The row of an item.
    Item,
    /// The row that splits what the items leave over.
    Leftover,
    /// The row of totals.
    Total,
}

/// What the row with the given label stands for. An item that is called as
/// one of the two other rows is taken for that row.
pub open spec fn kind_of(label: Seq<char>) -> RowKind {
    if label == total_label() {
        RowKind::Total
    } else if label == leftover_label() {
        RowKind::Leftover
    } else {
        RowKind::Item
    }
}

/// What the row with the given label stands for.
pub fn row_kind(label: &str) -> (r: RowKind)
    ensures
        r == kind_of(label@),
{
    if *label == *"<total>" {
        RowKind::Total
    } else if *label == *"<leftover>" {
        RowKind::Leftover
    } else {
        RowKind::Item
    }
}

/// The cells of a row as text, after the row's label.
pub open spec fn row_text(label: Seq<char>, cells: Seq<Dec>) -> Seq<Seq<char>> {
    seq![label] + Seq::new(cells.len(), |c: int| decimal_text(cells[c]))
}

/// The heading of the last column.
pub open spec fn total_heading() -> Seq<char> {
    "Total"@
}

impl ReceiptView {
    /// The headings of the split table: the heading of the labels, the
    /// people, and the heading of the last column.
    pub open spec fn headings(self, first: Seq<char>) -> Seq<Seq<char>> {
        seq![first] + self.shared_by + seq![total_heading()]
    }

    /// The rows of the split table as text, each after its label.
    pub open spec fn text_rows(self) -> Seq<Seq<Seq<char>>> {
        Seq::new(
            self.row_labels().len(),
            |r: int| row_text(self.row_labels()[r], self.split_rows()[r]),
        )
    }
}

impl Receipt {
    /// The headings of the split table: `first` over the labels, then the
    /// people, then `Total`.
    pub fn table_header(&self, first: &str) -> (r: Vec<String>)
        ensures
            r.deep_view() == self@.headings(first@),
    {
        let mut header: Vec<String> = Vec::new();
        header.push(first.to_owned());
        for j in 0..self.shared_by.len()
            invariant
                header.len() == j + 1,
                header@[0]@ == first@,
                forall|k: int| 0 <= k < j ==> (#[trigger] header@[k + 1])@ == self.shared_by@[k]@,
        {
            header.push(self.shared_by[j].clone());
        }
        header.push("Total".to_owned());
        proof {
            let have = header.deep_view();
            let want = self@.headings(first@);
            let n = self.shared_by.len() as int;
            assert(have.len() == want.len());
            assert forall|k: int| 0 <= k < have.len() implies have[k] == want[k] by {
                if 1 <= k <= n {
                    assert(header@[(k - 1) + 1]@ == self.shared_by@[k - 1]@);
                }
            }
            assert(have =~= want);
        }
        header
    }

    /// The rows of the split table as text: the label, then every cell
    /// written as a decimal. Fails where the split table does.
    pub fn table_rows(&self) -> (r: Result<Vec<Vec<String>>, SplittingError>)
        requires
            self@.wf(),
        ensures
            match self@.split_outcome() {
                SplitOutcome::Table => r matches Ok(rows) && rows.deep_view() == self@.text_rows(),
                SplitOutcome::Exceeds => r matches Err(
                    SplittingError::ItemTotalExceedsReceiptTotal(_),
                ),
                SplitOutcome::Unrepresentable => r matches Err(SplittingError::InternalError(_)),
            },
    {
        let (labels, splits) = match self.calculate_splits() {
            Ok(table) => table,
            Err(e) => {
                return Err(e);
            },
        };
        let ghost me = self@;
        assert(labels.len() == splits.len()) by {
            assert(labels.deep_view().len() == me.row_labels().len());
            assert(splits.deep_view().len() == me.split_rows().len());
        }
        let mut rows: Vec<Vec<String>> = Vec::new();
        for i in 0..labels.len()
            invariant
                labels.len() == splits.len(),
                labels.deep_view() == me.row_labels(),
                splits.deep_view() == me.split_rows(),
                rows.len() == i,
                forall|k: int| 0 <= k < i ==> (#[trigger] rows@[k]).deep_view() == me.text_rows()[k],
        {
            let cells = &splits[i];
            let mut row: Vec<String> = Vec::new();
            row.push(labels[i].to_owned());
            for c in 0..cells.len()
                invariant
                    i < labels.len(),
                    row.len() == c + 1,
                    row@[0]@ == labels@[i as int]@,
                    forall|k: int|
                        0 <= k < c ==> (#[trigger] row@[k + 1])@ == decimal_text(cells@[k]@),
            {
                row.push(cells[c].to_text());
            }
            proof {
                assert(labels.deep_view()[i as int] == labels@[i as int]@);
                assert(splits.deep_view()[i as int] =~= cells.deep_view());
                let have = row.deep_view();
                let want = row_text(labels@[i as int]@, cells.deep_view());
                assert(have.len() == want.len());
                assert forall|k: int| 0 <= k < have.len() implies have[k] == want[k] by {
                    if k >= 1 {
                        assert(row@[(k - 1) + 1]@ == decimal_text(cells@[k - 1]@));
                    }
                }
                assert(have =~= want);
            }
            rows.push(row);
        }
        assert(rows.deep_view() =~= me.text_rows());
        Ok(rows)
    }
}

} // verus!
