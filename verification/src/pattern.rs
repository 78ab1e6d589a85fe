//! Receipts and items written as text: `Total,Person_1[,Person_2,...]` for a
//! receipt, `Value,Abbrev_1[,Abbrev_2,...]` for an item.

use crate::decimal::{decimal_parsed, Amount};
use crate::error::{ErrorKind, SplittingError};
use crate::model::{ones, ItemView, ReceiptView};
use crate::receipt::Receipt;
use crate::resolver::{resolved, ResolveFailure};
use crate::text::{
    chars_of, comma_fields, lemma_comma_fields_len, lemma_first_index, lemma_no_index,
    split_commas,
};
use vstd::prelude::*;
use vstd::string::StringExecFns;

verus! {

/// What stands before the first comma of a text.
pub open spec fn head_of(text: Seq<char>) -> Seq<char> {
    text.subrange(0, text.index_of_first(',')->0)
}

/// What stands after the first comma of a text.
pub open spec fn tail_of(text: Seq<char>) -> Seq<char> {
    text.subrange(text.index_of_first(',')->0 + 1, text.len() as int)
}

/// The text before the first comma and the text after it. A text without a
/// comma is refused, with the message handed in.
pub fn split_by_comma(input_str: &str, error_message: &str) -> (r: Result<
    (String, String),
    SplittingError,
>)
    ensures
        match r {
            Ok((head, tail)) => input_str@.contains(',') && head@ == head_of(input_str@) && tail@
                == tail_of(input_str@),
            Err(SplittingError::DecimalParsingError(msg)) => !input_str@.contains(',') && msg@
                == error_message@,
            Err(_) => false,
        },
{
    let chars = chars_of(input_str);
    for i in 0..chars.len()
        invariant
            chars@ == input_str@,
            forall|j: int| 0 <= j < i ==> input_str@[j] != ',',
    {
        if chars[i] == ',' {
            proof {
                lemma_first_index(input_str@, ',', i as int);
            }
            let head = input_str.substring_char(0, i).to_owned();
            let tail = input_str.substring_char(i + 1, chars.len()).to_owned();
            return Ok((head, tail));
        }
    }
    proof {
        lemma_no_index(input_str@, ',');
    }
    Err(SplittingError::DecimalParsingError(error_message.to_owned()))
}

/// The receipt that a text of the form `Total,Person_1[,Person_2,...]`
/// describes, or why it describes none: the text must hold a comma and a
/// decimal number before the first one, and what follows are the people,
/// nobody twice and at least two.
pub open spec fn described_receipt(text: Seq<char>) -> Result<ReceiptView, ErrorKind> {
    let people = comma_fields(tail_of(text));
    if !text.contains(',') {
        Err(ErrorKind::DecimalParsing)
    } else {
        match decimal_parsed(head_of(text)) {
            None => Err(ErrorKind::DecimalParsing),
            Some(value) => if !people.no_duplicates() {
                Err(ErrorKind::DuplicatePeople)
            } else if people.len() < 2 {
                Err(ErrorKind::NotEnoughPeople)
            } else {
                Ok(
                    ReceiptView {
                        value,
                        shared_by: people,
                        mapped_abbreviations: Seq::empty(),
                        items: Seq::empty(),
                    },
                )
            },
        }
    }
}

/// What adding an item written as text does to a receipt.
pub struct Added {
    /// The receipt afterwards.
    pub receipt: ReceiptView,
    /// Why the item was refused, if it was.
    pub failure: Option<ErrorKind>,
}

/// What adding the item called `name` and written as
/// `Value,Abbrev_1[,Abbrev_2,...]` does to a receipt. The text must hold a
/// comma and a decimal number before the first one. What follows is resolved
/// as abbreviations, and what is learned on the way is kept even if the item
/// is refused in the end, for want of a name.
pub open spec fn with_named_item(before: ReceiptView, name: Seq<char>, text: Seq<char>) -> Added {
    let fields = comma_fields(tail_of(text));
    let end = resolved(before.shared_by, before.mapped_abbreviations, fields);
    let learned = ReceiptView { mapped_abbreviations: end.learned, ..before };
    if !text.contains(',') {
        Added { receipt: before, failure: Some(ErrorKind::DecimalParsing) }
    } else {
        match decimal_parsed(head_of(text)) {
            None => Added { receipt: before, failure: Some(ErrorKind::DecimalParsing) },
            Some(value) => if !fields.no_duplicates() {
                Added { receipt: before, failure: Some(ErrorKind::InvalidAbbreviation) }
            } else {
                match end.failure {
                    Some(ResolveFailure::Clash) => Added {
                        receipt: learned,
                        failure: Some(ErrorKind::DuplicatePeople),
                    },
                    Some(ResolveFailure::Unknown) => Added {
                        receipt: learned,
                        failure: Some(ErrorKind::InvalidAbbreviation),
                    },
                    None => if name.len() == 0 {
                        Added { receipt: learned, failure: Some(ErrorKind::InvalidField) }
                    } else {
                        Added {
                            receipt: learned.with_items(
                                before.items.push(
                                    ItemView {
                                        value,
                                        name,
                                        shared_by: end.claimed,
                                        share_ratio: ones(end.claimed.len()),
                                        is_prop_dist: false,
                                    },
                                ),
                            ),
                            failure: None,
                        }
                    },
                }
            },
        }
    }
}

impl Receipt {
    /// The receipt written as `Total,Person_1[,Person_2,...]`.
    ///
    /// The text must hold a comma, and a decimal number before the first
    /// one. What follows are the people: nobody twice, and at least two.
    pub fn parse_create_receipt(amount_shared_by: &str) -> (r: Result<Receipt, SplittingError>)
        ensures
            match described_receipt(amount_shared_by@) {
                Ok(described) => r matches Ok(receipt) && receipt@ == described && receipt@.wf(),
                Err(kind) => r matches Err(e) && e.kind() == kind,
            },
    {
        let (total, shared_by) = match split_by_comma(
            amount_shared_by,
            "Input must have pattern 'Total,Person_1[,Person_2,...]', but you have not provided the starting comma.",
        ) {
            Ok(parts) => parts,
            Err(e) => {
                return Err(e);
            },
        };
        let total = match Amount::parse(total.as_str()) {
            Ok(value) => value,
            Err(e) => {
                return Err(e);
            },
        };
        let names = split_commas(shared_by.as_str());
        let mut people: Vec<&str> = Vec::new();
        for i in 0..names.len()
            invariant
                people.len() == i,
                forall|j: int| 0 <= j < i ==> (#[trigger] people@[j])@ == names@[j]@,
        {
            people.push(names[i].as_str());
        }
        assert(people.deep_view() =~= names.deep_view());
        Receipt::new(total, people)
    }

    /// Adds the item called `item_name` and written as
    /// `Value,Abbrev_1[,Abbrev_2,...]`: an item worth the value, shared with
    /// the same weight by the people that the abbreviations stand for.
    ///
    /// The text must hold a comma, and a decimal number before the first
    /// one; else the receipt stays as it was. What follows is resolved as
    /// abbreviations, and what is learned on the way is kept even if the
    /// item is refused in the end. The item must have a name.
    pub fn parse_add_named_item(&mut self, item_name: &str, item_pattern: &str) -> (r: Result<
        (),
        SplittingError,
    >)
        requires
            old(self)@.wf(),
        ensures
            final(self)@.wf(),
            final(self)@ == with_named_item(old(self)@, item_name@, item_pattern@).receipt,
            match with_named_item(old(self)@, item_name@, item_pattern@).failure {
                None => r is Ok,
                Some(kind) => r matches Err(e) && e.kind() == kind,
            },
    {
        let mut msg = "The first argument must have pattern 'Value,Person_1[,Person_2,...]', but you have ".to_owned();
        msg.append(item_pattern);
        let (value, abbrevs) = match split_by_comma(item_pattern, msg.as_str()) {
            Ok(parts) => parts,
            Err(e) => {
                return Err(e);
            },
        };
        let value = match Amount::parse(value.as_str()) {
            Ok(v) => v,
            Err(e) => {
                return Err(e);
            },
        };
        let shared_by = match self.align_to_shared_by(abbrevs.as_str()) {
            Ok(names) => names,
            Err(e) => {
                return Err(e);
            },
        };
        let ghost resolved_view = self@;
        match self.add_item_split_by_ratio(value, item_name.to_owned(), shared_by, None) {
            Ok(_) => Ok(()),
            Err(e) => {
                proof {
                    lemma_comma_fields_len(tail_of(item_pattern@));
                }
                Err(e)
            },
        }
    }
}

} // verus!
