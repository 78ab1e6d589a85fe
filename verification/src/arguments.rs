//! A receipt given as a list of arguments: the receipt itself, then its
//! items, each as a name behind one or two dashes followed by the item.

use crate::error::{ErrorKind, SplittingError};
use crate::model::ReceiptView;
use crate::pattern::{described_receipt, with_named_item};
use crate::receipt::Receipt;
use crate::text::chars_of;
use vstd::prelude::*;
use vstd::string::StringExecFns;

verus! {

/// The item name that an argument gives: what stands behind two dashes, or
/// behind one. An argument without a dash in front gives none.
pub open spec fn item_name_of(arg: Seq<char>) -> Option<Seq<char>> {
    if arg.len() >= 2 && arg[0] == '-' && arg[1] == '-' {
        Some(arg.subrange(2, arg.len() as int))
    } else if arg.len() >= 1 && arg[0] == '-' {
        Some(arg.subrange(1, arg.len() as int))
    } else {
        None
    }
}

/// How far a list of arguments has been read.
pub struct Reading {
    /// The receipt so far.
    pub receipt: ReceiptView,
    /// The item name that waits for its item.
    pub pending: Option<Seq<char>>,
    /// Why reading stopped, if it did.
    pub failure: Option<ErrorKind>,
}

/// Reading one more argument: an item name where none is waiting, and else
/// the item that goes with the name. After a failure nothing changes any
/// more.
pub open spec fn read_argument(state: Reading, arg: Seq<char>) -> Reading {
    if state.failure is Some {
        state
    } else {
        match state.pending {
            None => match item_name_of(arg) {
                Some(name) => Reading { pending: Some(name), ..state },
                None => Reading { failure: Some(ErrorKind::InvalidArgument), ..state },
            },
            Some(name) => {
                let added = with_named_item(state.receipt, name, arg);
                Reading { receipt: added.receipt, pending: None, failure: added.failure }
            },
        }
    }
}

/// Reading the arguments from the third up to the `n`-th.
pub open spec fn read_upto(start: ReceiptView, args: Seq<Seq<char>>, n: int) -> Reading
    decreases n,
{
    if n <= 2 {
        Reading { receipt: start, pending: None, failure: None }
    } else {
        read_argument(read_upto(start, args, n - 1), args[n - 1])
    }
}

/// What a list of arguments describes: the receipt that the second argument
/// describes, with the items that the arguments after it add. The first
/// argument is the name of the program. A name that is left without its item
/// is passed over.
pub open spec fn described_by_arguments(args: Seq<Seq<char>>) -> Result<ReceiptView, ErrorKind> {
    if args.len() < 2 {
        Err(ErrorKind::InvalidArgument)
    } else {
        match described_receipt(args[1]) {
            Err(kind) => Err(kind),
            Ok(start) => {
                let end = read_upto(start, args, args.len() as int);
                match end.failure {
                    Some(kind) => Err(kind),
                    None => Ok(end.receipt),
                }
            },
        }
    }
}

/// After a failure, reading more arguments changes nothing.
pub proof fn lemma_reading_stops(start: ReceiptView, args: Seq<Seq<char>>, k: int, n: int)
    requires
        2 <= k <= n,
        read_upto(start, args, k).failure is Some,
    ensures
        read_upto(start, args, n) == read_upto(start, args, k),
    decreases n - k,
{
    if k < n {
        lemma_reading_stops(start, args, k, n - 1);
    }
}

/// The item name that an argument gives, if it gives one.
pub fn item_name(arg: &str) -> (r: Option<String>)
    ensures
        r.deep_view() == item_name_of(arg@),
{
    let chars = chars_of(arg);
    if chars.len() >= 2 && chars[0] == '-' && chars[1] == '-' {
        Some(arg.substring_char(2, chars.len()).to_owned())
    } else if chars.len() >= 1 && chars[0] == '-' {
        Some(arg.substring_char(1, chars.len()).to_owned())
    } else {
        None
    }
}

/// The receipt that a list of arguments describes.
///
/// The first argument is the name of the program and the second the receipt,
/// as `Total,Person_1[,Person_2,...]`. After it, the arguments come in pairs:
/// the name of an item behind one or two dashes, then the item as
/// `Value,Abbrev_1[,Abbrev_2,...]`.
pub fn parse_args(args: &Vec<String>) -> (r: Result<Receipt, SplittingError>)
    ensures
        match described_by_arguments(args.deep_view()) {
            Ok(described) => r matches Ok(receipt) && receipt@ == described && receipt@.wf(),
            Err(kind) => r matches Err(e) && e.kind() == kind,
        },
{
    if args.len() < 2 {
        return Err(
            SplittingError::InvalidArgument(
                "You have specified only the receipt's total value and people sharing it but not any item within it to split. Please do so".to_owned(),
            ),
        );
    }
    let ghost texts = args.deep_view();
    assert(args[1]@ == texts[1]);
    let mut receipt = match Receipt::parse_create_receipt(args[1].as_str()) {
        Ok(receipt) => receipt,
        Err(e) => {
            return Err(e);
        },
    };
    let ghost start = receipt@;
    let mut pending: Option<String> = None;
    for i in 2..args.len()
        invariant
            texts == args.deep_view(),
            texts.len() >= 2,
            described_receipt(texts[1]) == Ok::<ReceiptView, ErrorKind>(start),
            receipt@.wf(),
            read_upto(start, texts, i as int) == (Reading {
                receipt: receipt@,
                pending: pending.deep_view(),
                failure: None,
            }),
    {
        let arg = args[i].as_str();
        assert(arg@ == texts[i as int]);
        match pending {
            None => {
                match item_name(arg) {
                    Some(name) => {
                        pending = Some(name);
                    },
                    None => {
                        proof {
                            lemma_reading_stops(start, texts, i + 1, texts.len() as int);
                        }
                        let mut msg = "Argument ".to_owned();
                        msg.append((i - 1).to_string().as_str());
                        msg.append(
                            " is expected (in this case) to be an item name, and must be prefixed with a dash (-) or a double dash (--). Currently, it is ",
                        );
                        msg.append(arg);
                        return Err(SplittingError::InvalidArgument(msg));
                    },
                }
            },
            Some(name) => {
                match receipt.parse_add_named_item(name.as_str(), arg) {
                    Ok(_) => {},
                    Err(e) => {
                        proof {
                            lemma_reading_stops(start, texts, i + 1, texts.len() as int);
                        }
                        return Err(e);
                    },
                }
                pending = None;
            },
        }
    }
    Ok(receipt)
}

} // verus!
