use crate::errors::{FITSError, generic, outcome};
use crate::bintable::BinTable;
use crate::image::{Image, bitpix_of};
use crate::table::Table;
use crate::text::is_float_text;
use vstd::prelude::*;
use vstd::utf8::encode_utf8;

verus! {

/// A real number in its written form.
///
/// The library keeps the text of a number and never computes with its value.
/// The text of a well-formed `Real` is of the form that `is_float_text`
/// describes.
#[derive(Debug, PartialEq)]
pub struct Real {
    pub text: String,
}

impl View for Real {
    type V = Seq<char>;

    open spec fn view(&self) -> Seq<char> {
        self.text@
    }
}

impl Real {
    /// The text is that of a floating-point number.
    pub open spec fn wf(&self) -> bool {
        is_float_text(encode_utf8(self@))
    }
}

impl Clone for Real {
    fn clone(&self) -> (r: Self)
        ensures
            r == *self,
    {
        Real { text: self.text.clone() }
    }
}

/// The data of a header-data unit.
#[derive(Debug, PartialEq, Clone)]
pub enum HDUData {
    /// The unit has no data.
    Absent,
    Table(Box<Table>),
    Image(Box<Image>),
    BinTable(Box<BinTable>),
}

impl HDUData {
    /// The data are well formed: an image and a binary table are.
    pub open spec fn wf(&self) -> bool {
        match self {
            HDUData::Image(img) => img.wf(),
            HDUData::BinTable(t) => t.wf(),
            _ => true,
        }
    }
}

/// Storage type of an image's pixels, as selected by the `BITPIX` keyword.
#[derive(Debug, Clone, Copy, PartialEq, Eq, Structural)]
pub enum Bitpix {
    Int8,
    Int16,
    Int32,
    Int64,
    Float32,
    Float64,
}

impl View for Bitpix {
    type V = Bitpix;

    open spec fn view(&self) -> Bitpix {
        *self
    }
}

impl Bitpix {
    /// The `BITPIX` value that selects this type.
    pub open spec fn code(self) -> int {
        match self {
            Bitpix::Int8 => 8,
            Bitpix::Int16 => 16,
            Bitpix::Int32 => 32,
            Bitpix::Int64 => 64,
            Bitpix::Float32 => -32,
            Bitpix::Float64 => -64,
        }
    }

    /// Bytes per pixel.
    pub open spec fn width(self) -> nat {
        match self {
            Bitpix::Int8 => 1,
            Bitpix::Int16 => 2,
            Bitpix::Int32 => 4,
            Bitpix::Int64 => 8,
            Bitpix::Float32 => 4,
            Bitpix::Float64 => 8,
        }
    }

    /// The pixel type that a `BITPIX` value selects.
    pub fn from_i64(value: i64) -> (r: Result<Self, FITSError>)
        ensures
            outcome(r) == bitpix_of(value),
    {
        match value {
            8 => Ok(Bitpix::Int8),
            16 => Ok(Bitpix::Int16),
            32 => Ok(Bitpix::Int32),
            64 => Ok(Bitpix::Int64),
            -32 => Ok(Bitpix::Float32),
            -64 => Ok(Bitpix::Float64),
            _ => Err(generic("Invalid BITPIX value")),
        }
    }

    /// The `BITPIX` value that selects this type.
    pub fn to_i64(&self) -> (r: i64)
        ensures
            r == self.code(),
    {
        match self {
            Bitpix::Int8 => 8,
            Bitpix::Int16 => 16,
            Bitpix::Int32 => 32,
            Bitpix::Int64 => 64,
            Bitpix::Float32 => -32,
            Bitpix::Float64 => -64,
        }
    }

    /// Bytes per pixel.
    pub fn size(&self) -> (r: usize)
        ensures
            r == self.width(),
    {
        match self {
            Bitpix::Int8 => 1,
            Bitpix::Int16 => 2,
            Bitpix::Int32 => 4,
            Bitpix::Int64 => 8,
            Bitpix::Float32 => 4,
            Bitpix::Float64 => 8,
        }
    }
}

} // verus!
