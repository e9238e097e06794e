//! The types of binary-table columns, as `TFORM` keywords write them.
//!
//! A descriptor is a repeat count, a letter for the element type, and for
//! the two kinds of variable-length array the element type of the array and
//! its greatest length in parentheses: `3J`, `16X`, `1PE(1800)`.

use crate::errors::{ErrorView, FITSError, outcome};
use crate::strings::{bytes_of, push_char};
use crate::text::{
    LEFT_PAREN, RIGHT_PAREN, find_byte, find_from, parse_usize, scan_digits, skip_digits, usize_of,
};
use vstd::prelude::*;
use vstd::slice::slice_subrange;
use vstd::utf8::encode_utf8;

verus! {

/// The elemental types of a table column.
#[derive(Debug, PartialEq)]
pub enum TFormType {
    Logical,
    Bit,
    UnsignedByte,
    Int16,
    Int32,
    Int64,
    Char,
    Float32,
    Float64,
    Complex32,
    Complex64,
    /// A variable-length array addressed by two 32-bit numbers, with the
    /// type of its elements and its greatest length.
    ArrayD32(Box<TFormType>, usize),
    /// A variable-length array addressed by two 64-bit numbers, with the
    /// type of its elements and its greatest length.
    ArrayD64(Box<TFormType>, usize),
}

impl Default for TFormType {
    fn default() -> (r: Self)
        ensures
            r == TFormType::UnsignedByte,
    {
        TFormType::UnsignedByte
    }
}

impl Clone for TFormType {
    fn clone(&self) -> (r: Self)
        ensures
            r == *self,
        decreases self,
    {
        match self {
            TFormType::Logical => TFormType::Logical,
            TFormType::Bit => TFormType::Bit,
            TFormType::UnsignedByte => TFormType::UnsignedByte,
            TFormType::Int16 => TFormType::Int16,
            TFormType::Int32 => TFormType::Int32,
            TFormType::Int64 => TFormType::Int64,
            TFormType::Char => TFormType::Char,
            TFormType::Float32 => TFormType::Float32,
            TFormType::Float64 => TFormType::Float64,
            TFormType::Complex32 => TFormType::Complex32,
            TFormType::Complex64 => TFormType::Complex64,
            TFormType::ArrayD32(inner, n) => TFormType::ArrayD32(Box::new((&**inner).clone()), *n),
            TFormType::ArrayD64(inner, n) => TFormType::ArrayD64(Box::new((&**inner).clone()), *n),
        }
    }
}

/// The form of a table column: an elemental type and a repeat count.
#[derive(Debug, PartialEq)]
pub struct TForm {
    pub dtype: TFormType,
    pub repeats: usize,
}

impl Default for TForm {
    fn default() -> (r: Self)
        ensures
            r == (TForm { dtype: TFormType::UnsignedByte, repeats: 0 }),
    {
        TForm { dtype: TFormType::UnsignedByte, repeats: 0 }
    }
}

impl View for TForm {
    type V = TForm;

    open spec fn view(&self) -> TForm {
        *self
    }
}

impl View for TFormType {
    type V = TFormType;

    open spec fn view(&self) -> TFormType {
        *self
    }
}

impl Clone for TForm {
    fn clone(&self) -> (r: Self)
        ensures
            r == *self,
    {
        TForm { dtype: self.dtype.clone(), repeats: self.repeats }
    }
}

/// The type that a letter selects. A variable-length array starts out with
/// elements of the default type and no greatest length.
pub open spec fn type_of_char(c: char) -> Option<TFormType> {
    if c == 'L' {
        Some(TFormType::Logical)
    } else if c == 'X' {
        Some(TFormType::Bit)
    } else if c == 'B' {
        Some(TFormType::UnsignedByte)
    } else if c == 'I' {
        Some(TFormType::Int16)
    } else if c == 'J' {
        Some(TFormType::Int32)
    } else if c == 'K' {
        Some(TFormType::Int64)
    } else if c == 'A' {
        Some(TFormType::Char)
    } else if c == 'E' {
        Some(TFormType::Float32)
    } else if c == 'D' {
        Some(TFormType::Float64)
    } else if c == 'C' {
        Some(TFormType::Complex32)
    } else if c == 'M' {
        Some(TFormType::Complex64)
    } else if c == 'P' {
        Some(TFormType::ArrayD32(Box::new(TFormType::UnsignedByte), 0))
    } else if c == 'Q' {
        Some(TFormType::ArrayD64(Box::new(TFormType::UnsignedByte), 0))
    } else {
        None
    }
}

/// The bytes that one element of a type takes in a table row. For a
/// variable-length array this is the size of what the row holds of it, not
/// of the array. A bit takes no whole number of bytes: see `byte_size`.
pub open spec fn element_size(t: TFormType) -> nat {
    match t {
        TFormType::Logical => 1,
        TFormType::Bit => 1,
        TFormType::UnsignedByte => 1,
        TFormType::Int16 => 2,
        TFormType::Int32 => 4,
        TFormType::Int64 => 8,
        TFormType::Char => 1,
        TFormType::Float32 => 4,
        TFormType::Float64 => 8,
        TFormType::Complex32 => 8,
        TFormType::Complex64 => 16,
        TFormType::ArrayD32(_, _) => 4,
        TFormType::ArrayD64(_, _) => 8,
    }
}

/// The bytes that a column of the given form takes in a table row.
pub open spec fn byte_size(t: TForm) -> nat {
    if t.dtype is Bit {
        (t.repeats as nat + 7) / 8
    } else {
        t.repeats as nat * element_size(t.dtype)
    }
}

/// The type that a letter selects, or the error that reports the letter.
pub open spec fn type_of(c: char) -> Result<TFormType, ErrorView> {
    match type_of_char(c) {
        Some(t) => Ok(t),
        None => Err(bad_letter(c)),
    }
}

/// What `tform_type_from_char` reports for a letter that selects no type.
pub open spec fn bad_letter(c: char) -> ErrorView {
    ErrorView::InvalidTForm(seq![c])
}

/// What follows the letter `P` or `Q`: the element type and the greatest
/// length of a variable-length array.
///
/// `rest` may start with the letter of the element type, which is the
/// default type if there is none; a `(` after that opens the greatest
/// length, which ends at the first `)` or at the end of the text.
pub open spec fn array_of(rest: Seq<u8>, whole: Seq<char>) -> Result<(TFormType, usize), ErrorView> {
    let lettered = rest.len() > 0 && rest[0] != LEFT_PAREN;
    let at = if lettered {
        1int
    } else {
        0int
    };
    let inner = if lettered {
        type_of_char(rest[0] as char)
    } else {
        Some(TFormType::UnsignedByte)
    };
    let longest = if at < rest.len() && rest[at] == LEFT_PAREN {
        usize_of(rest.subrange(at + 1, find_from(rest, RIGHT_PAREN, at + 1)))
    } else {
        Some(0usize)
    };
    match inner {
        None => Err(bad_letter(rest[0] as char)),
        Some(t) => match longest {
            None => Err(ErrorView::InvalidTForm(whole)),
            Some(n) => Ok((t, n)),
        },
    }
}

/// The descriptor that the text `s` writes, where `whole` is `s` as
/// characters.
///
/// The leading digits are the repeat count, 1 if there are none. The next
/// byte selects the type. The count of a variable-length array is 0 or 1.
/// A descriptor whose size in bytes no `usize` holds is refused.
pub open spec fn tform_of(s: Seq<u8>, whole: Seq<char>) -> Result<TForm, ErrorView> {
    let d = skip_digits(s, 0);
    let repeats = if d == 0 {
        Some(1usize)
    } else {
        usize_of(s.subrange(0, d))
    };
    if d >= s.len() || repeats is None {
        Err(ErrorView::InvalidTForm(whole))
    } else {
        match type_of_char(s[d] as char) {
            None => Err(bad_letter(s[d] as char)),
            Some(t) => {
                let n = repeats->Some_0;
                if t is ArrayD32 || t is ArrayD64 {
                    match array_of(s.skip(d + 1), whole) {
                        Err(e) => Err(e),
                        Ok((inner, longest)) => if n > 1 {
                            Err(ErrorView::InvalidTForm(whole))
                        } else if t is ArrayD32 {
                            Ok(TForm { dtype: TFormType::ArrayD32(Box::new(inner), longest), repeats: n })
                        } else {
                            Ok(TForm { dtype: TFormType::ArrayD64(Box::new(inner), longest), repeats: n })
                        },
                    }
                } else if byte_size(TForm { dtype: t, repeats: n }) > usize::MAX {
                    Err(ErrorView::InvalidTForm(whole))
                } else {
                    Ok(TForm { dtype: t, repeats: n })
                }
            },
        }
    }
}

/// The type that a letter of a `TFORM` value selects.
pub fn tform_type_from_char(c: char) -> (r: Result<TFormType, FITSError>)
    ensures
        outcome(r) == type_of(c),
{
    match c {
        'L' => Ok(TFormType::Logical),
        'X' => Ok(TFormType::Bit),
        'B' => Ok(TFormType::UnsignedByte),
        'I' => Ok(TFormType::Int16),
        'J' => Ok(TFormType::Int32),
        'K' => Ok(TFormType::Int64),
        'A' => Ok(TFormType::Char),
        'E' => Ok(TFormType::Float32),
        'D' => Ok(TFormType::Float64),
        'C' => Ok(TFormType::Complex32),
        'M' => Ok(TFormType::Complex64),
        'P' => Ok(TFormType::ArrayD32(Box::new(TFormType::default()), 0)),
        'Q' => Ok(TFormType::ArrayD64(Box::new(TFormType::default()), 0)),
        _ => {
            let mut letter = String::new();
            push_char(&mut letter, c);
            assert(letter@ =~= seq![c]);
            Err(FITSError::InvalidTForm(letter))
        },
    }
}

fn read_array(rest: &[u8], whole: &str) -> (r: Result<(TFormType, usize), FITSError>)
    ensures
        outcome(r) == array_of(rest@, whole@),
{
    let lettered = rest.len() > 0 && rest[0] != LEFT_PAREN;
    let at: usize = if lettered {
        1
    } else {
        0
    };
    let inner = if lettered {
        match tform_type_from_char(rest[0] as char) {
            Ok(t) => t,
            Err(e) => {
                return Err(e);
            },
        }
    } else {
        TFormType::default()
    };
    if at < rest.len() && rest[at] == LEFT_PAREN {
        let close = find_byte(rest, RIGHT_PAREN, at + 1);
        match parse_usize(slice_subrange(rest, at + 1, close)) {
            Some(n) => Ok((inner, n)),
            None => Err(FITSError::InvalidTForm(whole.to_owned())),
        }
    } else {
        Ok((inner, 0))
    }
}

impl TForm {
    /// Whether the size of the column in bytes is a number that a `usize`
    /// holds.
    pub open spec fn wf(&self) -> bool {
        byte_size(*self) <= usize::MAX
    }

    /// Whether the form is well formed.
    pub fn is_wf(&self) -> (r: bool)
        ensures
            r == self.wf(),
    {
        match &self.dtype {
            TFormType::Bit => true,
            t => self.repeats.checked_mul(element_bytes(t)).is_some(),
        }
    }

    /// Reads a column type such as `3J` or `1PE(1800)`.
    pub fn from_string(s: &str) -> (r: Result<Self, FITSError>)
        ensures
            outcome(r) == tform_of(encode_utf8(s@), s@),
            r is Ok ==> r->Ok_0.wf(),
    {
        let bytes = bytes_of(s);
        let d = scan_digits(bytes, 0);
        let repeats = if d == 0 {
            Some(1usize)
        } else {
            parse_usize(slice_subrange(bytes, 0, d))
        };
        if d >= bytes.len() || repeats.is_none() {
            return Err(FITSError::InvalidTForm(s.to_owned()));
        }
        let n = repeats.unwrap();
        let t = match tform_type_from_char(bytes[d] as char) {
            Ok(t) => t,
            Err(e) => {
                return Err(e);
            },
        };
        let ghost spec_type = type_of_char(bytes@[d as int] as char);
        assert(spec_type == Some(t));
        let array32 = matches!(t, TFormType::ArrayD32(_, _));
        let array64 = matches!(t, TFormType::ArrayD64(_, _));
        if array32 || array64 {
            let (inner, longest) = match read_array(slice_subrange(bytes, d + 1, bytes.len()), s) {
                Ok(p) => p,
                Err(e) => {
                    return Err(e);
                },
            };
            if n > 1 {
                return Err(FITSError::InvalidTForm(s.to_owned()));
            }
            if array32 {
                Ok(TForm { dtype: TFormType::ArrayD32(Box::new(inner), longest), repeats: n })
            } else {
                Ok(TForm { dtype: TFormType::ArrayD64(Box::new(inner), longest), repeats: n })
            }
        } else {
            let fits = match t {
                TFormType::Bit => true,
                _ => n.checked_mul(element_bytes(&t)).is_some(),
            };
            if !fits {
                return Err(FITSError::InvalidTForm(s.to_owned()));
            }
            Ok(TForm { dtype: t, repeats: n })
        }
    }

    /// The number of bytes that a column of this form takes in a table row:
    /// the repeat count times the size of an element, and for bits the
    /// count divided by 8 and rounded up.
    pub fn bytes(&self) -> (r: usize)
        requires
            self.wf(),
        ensures
            r == byte_size(*self),
            !(self.dtype is Bit) ==> r == self.repeats * element_size(self.dtype),
            self.dtype is Bit ==> r == (self.repeats + 7) / 8,
    {
        match &self.dtype {
            TFormType::Bit => {
                if self.repeats % 8 == 0 {
                    self.repeats / 8
                } else {
                    self.repeats / 8 + 1
                }
            },
            t => {
                let size = element_bytes(t);
                assert(self.repeats * size <= usize::MAX);
                self.repeats * size
            },
        }
    }
}

/// The bytes that one element of a type takes in a table row.
pub fn element_bytes(t: &TFormType) -> (r: usize)
    ensures
        r == element_size(*t),
{
    match t {
        TFormType::Logical => 1,
        TFormType::Bit => 1,
        TFormType::UnsignedByte => 1,
        TFormType::Int16 => 2,
        TFormType::Int32 => 4,
        TFormType::Int64 => 8,
        TFormType::Char => 1,
        TFormType::Float32 => 4,
        TFormType::Float64 => 8,
        TFormType::Complex32 => 8,
        TFormType::Complex64 => 16,
        TFormType::ArrayD32(_, _) => 4,
        TFormType::ArrayD64(_, _) => 8,
    }
}

} // verus!
