//! Keywords required at fixed positions of a header.

use crate::errors::{ErrorView, FITSError, outcome};
use crate::header::Header;
use crate::keyword::{KeywordValue, KeywordView, ValueView};
use crate::strings::str_eq;
use vstd::prelude::*;
use vstd::string::StringExecFns;

verus! {

/// What is said of a misplaced keyword: the name found, ` not `, and the
/// name required.
pub open spec fn misplaced(found: Seq<char>, required: Seq<char>) -> Seq<char> {
    found + " not "@ + required
}

/// The integer of the keyword `name` at position `index`.
///
/// The keyword is missing if the header is too short, misplaced if another
/// name stands at `index`, and of the wrong type if its value is no integer.
pub open spec fn int_at(h: Seq<KeywordView>, index: int, name: Seq<char>) -> Result<
    i64,
    ErrorView,
> {
    if !(0 <= index < h.len()) {
        Err(ErrorView::MissingKeyword(name))
    } else if h[index].name != name {
        Err(ErrorView::InvalidKeywordPlacement(misplaced(h[index].name, name), index as usize))
    } else {
        match h[index].value {
            ValueView::Int(v) => Ok(v),
            _ => Err(ErrorView::UnexpectedValueType(h[index].name)),
        }
    }
}

/// That the keyword `name` stands at position `index` with the integer
/// `value`; any other integer is reported as a `GenericError`.
pub open spec fn int_is(h: Seq<KeywordView>, index: int, name: Seq<char>, value: i64) -> Result<
    (),
    ErrorView,
> {
    match int_at(h, index, name) {
        Ok(v) => if v == value {
            Ok(())
        } else {
            Err(ErrorView::GenericError("Invalid value for keyword "@ + name))
        },
        Err(e) => Err(e),
    }
}

/// The integer of the keyword `name`, which must stand at position `index`.
pub fn get_keyword_int_at_index(header: &Header, index: usize, name: &str) -> (r: Result<
    i64,
    FITSError,
>)
    ensures
        outcome(r) == int_at(header@, index as int, name@),
{
    match header.get(index) {
        Some(kw) => {
            if !str_eq(kw.name.as_str(), name) {
                let mut message = kw.name.clone();
                message.append(" not ");
                message.append(name);
                return Err(FITSError::InvalidKeywordPlacement(message, index));
            }
            match &kw.value {
                KeywordValue::Int(v) => Ok(*v),
                _ => Err(FITSError::UnexpectedValueType(kw.name.clone())),
            }
        },
        None => Err(FITSError::MissingKeyword(name.to_owned())),
    }
}

/// Checks that the keyword `name` stands at position `index` and holds the
/// integer `value`.
pub fn check_int_keyword_at_index(header: &Header, index: usize, name: &str, value: i64) -> (r:
    Result<(), FITSError>)
    ensures
        outcome(r) == int_is(header@, index as int, name@, value),
{
    match get_keyword_int_at_index(header, index, name) {
        Ok(v) => {
            if v != value {
                let mut message = "Invalid value for keyword ".to_owned();
                message.append(name);
                return Err(FITSError::GenericError(message));
            }
            Ok(())
        },
        Err(e) => Err(e),
    }
}

/// What is reported of a required keyword that does not stand at its
/// position: that it is missing where the header ends before the position,
/// and else that another keyword stands in its place.
pub open spec fn not_in_place(h: Seq<KeywordView>, index: int, name: Seq<char>) -> ErrorView {
    if index >= h.len() {
        ErrorView::MissingKeyword(name)
    } else {
        ErrorView::InvalidKeywordPlacement(misplaced(h[index].name, name), index as usize)
    }
}

/// Whether the keyword at position `index` has the name required.
pub open spec fn in_place(h: Seq<KeywordView>, index: int, name: Seq<char>) -> bool {
    0 <= index < h.len() && h[index].name == name
}

/// A keyword that is not in its place is reported as missing or as
/// misplaced, whatever value is asked of it; and no value is read from a
/// keyword that is not in its place.
pub proof fn lemma_not_in_place(h: Seq<KeywordView>, index: int, name: Seq<char>, value: i64)
    requires
        0 <= index,
    ensures
        !in_place(h, index, name) ==> int_at(h, index, name) == Err::<i64, ErrorView>(
            not_in_place(h, index, name),
        ) && int_is(h, index, name, value) == Err::<(), ErrorView>(not_in_place(h, index, name)),
        int_at(h, index, name) is Ok ==> in_place(h, index, name),
        int_is(h, index, name, value) is Ok ==> in_place(h, index, name),
{
}

} // verus!
