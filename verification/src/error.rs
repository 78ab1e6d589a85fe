//! The ways in which building or splitting a receipt can fail.

use vstd::prelude::*;

verus! {

/// Why an operation on a receipt was refused. Each variant carries a message
/// for the person at the keyboard.
#[derive(Clone, Debug, PartialEq, Eq)]
pub enum SplittingError {
    /// A person is named twice.
    DuplicatePeopleError(String),
    /// Too few people share a receipt or an item.
    NotEnoughPeopleError(String),
    /// The people sharing an item and their ratios do not line up.
    InvalidShareConfiguration(String),
    /// A field holds a value that is not allowed, such as an empty name.
    InvalidFieldError(String),
    /// An abbreviation is repeated or matches nobody.
    InvalidAbbreviation(String),
    /// The decimal arithmetic could not represent a result.
    InternalError(String),
    /// The items add up to more than the receipt.
    ItemTotalExceedsReceiptTotal(String),
    /// A piece of text is not a decimal number.
    DecimalParsingError(String),
    /// The command line is malformed.
    InvalidArgument(String),
    /// An item index is out of range.
    InvalidIndexError(String),
    /// Too few items are left to split proportionally on.
    NotProportionallySplittableError(String),
}

/// The ways in which an operation can fail, without the messages.
#[derive(Clone, Copy, Debug, PartialEq, Eq)]
pub enum ErrorKind {
    /// A person is named twice.
    DuplicatePeople,
    /// Too few people share a receipt or an item.
    NotEnoughPeople,
    /// The people sharing an item and their ratios do not line up.
    InvalidShareConfiguration,
    /// A field holds a value that is not allowed.
    InvalidField,
    /// An abbreviation is repeated or matches nobody.
    InvalidAbbreviation,
    /// The decimal arithmetic could not represent a result.
    Internal,
    /// The items add up to more than the receipt.
    ItemTotalExceedsReceiptTotal,
    /// A piece of text is not a decimal number.
    DecimalParsing,
    /// The command line is malformed.
    InvalidArgument,
    /// An item index is out of range.
    InvalidIndex,
    /// Too few items are left to split proportionally on.
    NotProportionallySplittable,
}

impl SplittingError {
    /// The way in which the operation failed.
    pub open spec fn kind(self) -> ErrorKind {
        match self {
            SplittingError::DuplicatePeopleError(_) => ErrorKind::DuplicatePeople,
            SplittingError::NotEnoughPeopleError(_) => ErrorKind::NotEnoughPeople,
            SplittingError::InvalidShareConfiguration(_) => ErrorKind::InvalidShareConfiguration,
            SplittingError::InvalidFieldError(_) => ErrorKind::InvalidField,
            SplittingError::InvalidAbbreviation(_) => ErrorKind::InvalidAbbreviation,
            SplittingError::InternalError(_) => ErrorKind::Internal,
            SplittingError::ItemTotalExceedsReceiptTotal(_) => ErrorKind::ItemTotalExceedsReceiptTotal,
            SplittingError::DecimalParsingError(_) => ErrorKind::DecimalParsing,
            SplittingError::InvalidArgument(_) => ErrorKind::InvalidArgument,
            SplittingError::InvalidIndexError(_) => ErrorKind::InvalidIndex,
            SplittingError::NotProportionallySplittableError(_) =>
                ErrorKind::NotProportionallySplittable,
        }
    }

    /// The way in which the operation failed.
    pub fn error_kind(&self) -> (r: ErrorKind)
        ensures
            r == self.kind(),
    {
        match self {
            SplittingError::DuplicatePeopleError(_) => ErrorKind::DuplicatePeople,
            SplittingError::NotEnoughPeopleError(_) => ErrorKind::NotEnoughPeople,
            SplittingError::InvalidShareConfiguration(_) => ErrorKind::InvalidShareConfiguration,
            SplittingError::InvalidFieldError(_) => ErrorKind::InvalidField,
            SplittingError::InvalidAbbreviation(_) => ErrorKind::InvalidAbbreviation,
            SplittingError::InternalError(_) => ErrorKind::Internal,
            SplittingError::ItemTotalExceedsReceiptTotal(_) => ErrorKind::ItemTotalExceedsReceiptTotal,
            SplittingError::DecimalParsingError(_) => ErrorKind::DecimalParsing,
            SplittingError::InvalidArgument(_) => ErrorKind::InvalidArgument,
            SplittingError::InvalidIndexError(_) => ErrorKind::InvalidIndex,
            SplittingError::NotProportionallySplittableError(_) =>
                ErrorKind::NotProportionallySplittable,
        }
    }

    /// The text that the error carries.
    pub open spec fn text(self) -> Seq<char> {
        match self {
            SplittingError::DuplicatePeopleError(msg) => msg@,
            SplittingError::NotEnoughPeopleError(msg) => msg@,
            SplittingError::InvalidShareConfiguration(msg) => msg@,
            SplittingError::InvalidFieldError(msg) => msg@,
            SplittingError::InvalidAbbreviation(msg) => msg@,
            SplittingError::InternalError(msg) => msg@,
            SplittingError::ItemTotalExceedsReceiptTotal(msg) => msg@,
            SplittingError::DecimalParsingError(msg) => msg@,
            SplittingError::InvalidArgument(msg) => msg@,
            SplittingError::InvalidIndexError(msg) => msg@,
            SplittingError::NotProportionallySplittableError(msg) => msg@,
        }
    }

    /// The message to show, which is the text carried by the variant.
    pub fn message(&self) -> (r: String)
        ensures
            r@ == self.text(),
    {
        match self {
            SplittingError::DuplicatePeopleError(msg) => msg.clone(),
            SplittingError::NotEnoughPeopleError(msg) => msg.clone(),
            SplittingError::InvalidShareConfiguration(msg) => msg.clone(),
            SplittingError::InvalidFieldError(msg) => msg.clone(),
            SplittingError::InvalidAbbreviation(msg) => msg.clone(),
            SplittingError::InternalError(msg) => msg.clone(),
            SplittingError::ItemTotalExceedsReceiptTotal(msg) => msg.clone(),
            SplittingError::DecimalParsingError(msg) => msg.clone(),
            SplittingError::InvalidArgument(msg) => msg.clone(),
            SplittingError::InvalidIndexError(msg) => msg.clone(),
            SplittingError::NotProportionallySplittableError(msg) => msg.clone(),
        }
    }
}

} // verus!
