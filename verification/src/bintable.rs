//! Binary tables: rows of fixed width whose fields are numbers in binary
//! form, the most significant byte first.
//!
//! The cells are decoded on demand from the bytes of the table. A
//! floating-point number is handed out as its bits.

use crate::endian::{be_value, radix, read_be};
use crate::errors::{ErrorView, FITSError, collect, first_bad, generic, outcome};
use crate::header::{
    Header, int_of_key, real_of_key, real_view, string_of_key, text_view, value_of,
};
use crate::image::{capped, get_keyword_size_at_index, size_at};
use crate::keyword::{KeywordValue, KeywordView, ValueView};
use crate::strings::{numbered, numbered_name};
use crate::tdisp::TDisp;
use crate::text::chars_of;
use crate::tform::{TForm, TFormType, byte_size, tform_of};
use crate::types::{HDUData, Real};
use crate::utils::{check_int_keyword_at_index, in_place, int_is, not_in_place};
use vstd::prelude::*;
use vstd::slice::{slice_subrange, slice_to_vec};
use vstd::utf8::encode_utf8;

verus! {

/// One cell of a binary table: a value where the repeat count of the column
/// is 1, and else an array. The variants for floating-point numbers hold
/// the bits of the numbers; a complex number is its real and its imaginary
/// part.
#[derive(Debug, PartialEq)]
pub enum BinTableValue {
    Null,
    Logical(bool),
    LogicalArr(Vec<bool>),
    Bit(bool),
    BitArr(Vec<bool>),
    UnsignedByte(u8),
    UnsignedByteArr(Vec<u8>),
    Int16(i16),
    Int16Arr(Vec<i16>),
    Int32(i32),
    Int32Arr(Vec<i32>),
    Int64(i64),
    Int64Arr(Vec<i64>),
    Char(char),
    String(String),
    Float32(u32),
    Float32Arr(Vec<u32>),
    Float64(u64),
    Float64Arr(Vec<u64>),
    Complex32((u32, u32)),
    Complex32Arr(Vec<(u32, u32)>),
    Complex64((u64, u64)),
    Complex64Arr(Vec<(u64, u64)>),
}

/// The model of a `BinTableValue`.
pub enum BinCellView {
    Null,
    Logical(bool),
    LogicalArr(Seq<bool>),
    Bit(bool),
    BitArr(Seq<bool>),
    UnsignedByte(u8),
    UnsignedByteArr(Seq<u8>),
    Int16(i16),
    Int16Arr(Seq<i16>),
    Int32(i32),
    Int32Arr(Seq<i32>),
    Int64(i64),
    Int64Arr(Seq<i64>),
    Char(char),
    String(Seq<char>),
    Float32(u32),
    Float32Arr(Seq<u32>),
    Float64(u64),
    Float64Arr(Seq<u64>),
    Complex32((u32, u32)),
    Complex32Arr(Seq<(u32, u32)>),
    Complex64((u64, u64)),
    Complex64Arr(Seq<(u64, u64)>),
}

impl View for BinTableValue {
    type V = BinCellView;

    open spec fn view(&self) -> BinCellView {
        match self {
            BinTableValue::Null => BinCellView::Null,
            BinTableValue::Logical(v) => BinCellView::Logical(*v),
            BinTableValue::LogicalArr(v) => BinCellView::LogicalArr(v@),
            BinTableValue::Bit(v) => BinCellView::Bit(*v),
            BinTableValue::BitArr(v) => BinCellView::BitArr(v@),
            BinTableValue::UnsignedByte(v) => BinCellView::UnsignedByte(*v),
            BinTableValue::UnsignedByteArr(v) => BinCellView::UnsignedByteArr(v@),
            BinTableValue::Int16(v) => BinCellView::Int16(*v),
            BinTableValue::Int16Arr(v) => BinCellView::Int16Arr(v@),
            BinTableValue::Int32(v) => BinCellView::Int32(*v),
            BinTableValue::Int32Arr(v) => BinCellView::Int32Arr(v@),
            BinTableValue::Int64(v) => BinCellView::Int64(*v),
            BinTableValue::Int64Arr(v) => BinCellView::Int64Arr(v@),
            BinTableValue::Char(v) => BinCellView::Char(*v),
            BinTableValue::String(v) => BinCellView::String(v@),
            BinTableValue::Float32(v) => BinCellView::Float32(*v),
            BinTableValue::Float32Arr(v) => BinCellView::Float32Arr(v@),
            BinTableValue::Float64(v) => BinCellView::Float64(*v),
            BinTableValue::Float64Arr(v) => BinCellView::Float64Arr(v@),
            BinTableValue::Complex32(v) => BinCellView::Complex32(*v),
            BinTableValue::Complex32Arr(v) => BinCellView::Complex32Arr(v@),
            BinTableValue::Complex64(v) => BinCellView::Complex64(*v),
            BinTableValue::Complex64Arr(v) => BinCellView::Complex64Arr(v@),
        }
    }
}

/// What the header says of one column.
#[derive(Debug, PartialEq, Clone)]
pub struct BinColumn {
    /// The name of the field (`TTYPE`).
    pub name: Option<String>,
    pub scale: Option<Real>,
    pub zero: Option<Real>,
    /// The display format; the decoder reads none.
    pub tdisp: TDisp,
    pub unit: Option<String>,
    pub tdmin: Option<Real>,
    pub tdmax: Option<Real>,
    pub tlmin: Option<Real>,
    pub tlmax: Option<Real>,
    /// The number that stands for no value.
    pub tnull: Option<i64>,
    pub tform: TForm,
}

/// The model of a `BinColumn`.
pub struct BinColumnView {
    pub name: Option<Seq<char>>,
    pub scale: Option<Seq<char>>,
    pub zero: Option<Seq<char>>,
    pub tdisp: TDisp,
    pub unit: Option<Seq<char>>,
    pub tdmin: Option<Seq<char>>,
    pub tdmax: Option<Seq<char>>,
    pub tlmin: Option<Seq<char>>,
    pub tlmax: Option<Seq<char>>,
    pub tnull: Option<i64>,
    pub tform: TForm,
}

impl View for BinColumn {
    type V = BinColumnView;

    open spec fn view(&self) -> BinColumnView {
        BinColumnView {
            name: text_view(self.name),
            scale: real_view(self.scale),
            zero: real_view(self.zero),
            tdisp: self.tdisp,
            unit: text_view(self.unit),
            tdmin: real_view(self.tdmin),
            tdmax: real_view(self.tdmax),
            tlmin: real_view(self.tlmin),
            tlmax: real_view(self.tlmax),
            tnull: self.tnull,
            tform: self.tform,
        }
    }
}

/// A binary table.
#[derive(Debug, PartialEq, Clone)]
pub struct BinTable {
    pub ncols: usize,
    pub nrows: usize,
    /// The offset of the heap in `raw`.
    pub theap: usize,
    /// The size of the heap in bytes.
    pub pcount: usize,
    /// The width of a row in bytes.
    pub rowbytes: usize,
    pub columns: Vec<BinColumn>,
    /// The rows, one after the other, and behind them the heap.
    pub raw: Vec<u8>,
}

/// The model of a `BinTable`.
pub struct BinTableView {
    pub ncols: usize,
    pub nrows: usize,
    pub theap: usize,
    pub pcount: usize,
    pub rowbytes: usize,
    pub columns: Seq<BinColumnView>,
    pub raw: Seq<u8>,
}

/// The models of a list of columns.
pub open spec fn bin_columns_view(v: Seq<BinColumn>) -> Seq<BinColumnView> {
    Seq::new(v.len(), |i: int| v[i]@)
}

impl View for BinTable {
    type V = BinTableView;

    open spec fn view(&self) -> BinTableView {
        BinTableView {
            ncols: self.ncols,
            nrows: self.nrows,
            theap: self.theap,
            pcount: self.pcount,
            rowbytes: self.rowbytes,
            columns: bin_columns_view(self.columns@),
            raw: self.raw@,
        }
    }
}

/// The number that `width` bytes write in two's complement, given the
/// number that they write without a sign.
pub open spec fn signed(v: nat, width: int) -> int {
    if 2 * v < radix(width) {
        v as int
    } else {
        v - radix(width)
    }
}

/// The number that the `width` bytes of element `i` write, where the
/// elements start at `off`.
pub open spec fn be_at(raw: Seq<u8>, off: int, i: int, width: int) -> nat {
    be_value(raw.subrange(off + i * width, off + i * width + width))
}

/// Bit `j` of a byte, counted from the least significant.
pub open spec fn bit_of(b: u8, j: u8) -> bool {
    b & (1u8 << j) != 0
}

/// The cell of a column of form `t` whose bytes start at `off`.
///
/// Each element is read with the most significant byte first. Bits come
/// out byte by byte, the least significant bit of each byte first, eight
/// for each byte of the field. A complex number is the number of its real
/// part and then that of its imaginary part.
pub open spec fn cell_at(raw: Seq<u8>, off: int, t: TForm) -> BinCellView {
    let n = t.repeats as nat;
    let one = t.repeats == 1;
    match t.dtype {
        TFormType::Logical => if one {
            BinCellView::Logical(raw[off] != 0)
        } else {
            BinCellView::LogicalArr(Seq::new(n, |i: int| raw[off + i] != 0))
        },
        TFormType::Bit => if one {
            BinCellView::Bit(raw[off] != 0)
        } else {
            BinCellView::BitArr(
                Seq::new(8 * ((n + 7) / 8), |i: int| bit_of(raw[off + i / 8], (i % 8) as u8)),
            )
        },
        TFormType::UnsignedByte => if one {
            BinCellView::UnsignedByte(raw[off])
        } else {
            BinCellView::UnsignedByteArr(Seq::new(n, |i: int| raw[off + i]))
        },
        TFormType::Int16 => if one {
            BinCellView::Int16(signed(be_at(raw, off, 0, 2), 2) as i16)
        } else {
            BinCellView::Int16Arr(Seq::new(n, |i: int| signed(be_at(raw, off, i, 2), 2) as i16))
        },
        TFormType::Int32 => if one {
            BinCellView::Int32(signed(be_at(raw, off, 0, 4), 4) as i32)
        } else {
            BinCellView::Int32Arr(Seq::new(n, |i: int| signed(be_at(raw, off, i, 4), 4) as i32))
        },
        TFormType::Int64 => if one {
            BinCellView::Int64(signed(be_at(raw, off, 0, 8), 8) as i64)
        } else {
            BinCellView::Int64Arr(Seq::new(n, |i: int| signed(be_at(raw, off, i, 8), 8) as i64))
        },
        TFormType::Char => if one {
            BinCellView::Char(raw[off] as char)
        } else {
            BinCellView::String(chars_of(raw.subrange(off, off + n)))
        },
        TFormType::Float32 => if one {
            BinCellView::Float32(be_at(raw, off, 0, 4) as u32)
        } else {
            BinCellView::Float32Arr(Seq::new(n, |i: int| be_at(raw, off, i, 4) as u32))
        },
        TFormType::Float64 => if one {
            BinCellView::Float64(be_at(raw, off, 0, 8) as u64)
        } else {
            BinCellView::Float64Arr(Seq::new(n, |i: int| be_at(raw, off, i, 8) as u64))
        },
        TFormType::Complex32 => if one {
            BinCellView::Complex32((be_at(raw, off, 0, 4) as u32, be_at(raw, off, 1, 4) as u32))
        } else {
            BinCellView::Complex32Arr(
                Seq::new(
                    n,
                    |i: int|
                        (be_at(raw, off, 2 * i, 4) as u32, be_at(raw, off, 2 * i + 1, 4) as u32),
                ),
            )
        },
        TFormType::Complex64 => if one {
            BinCellView::Complex64((be_at(raw, off, 0, 8) as u64, be_at(raw, off, 1, 8) as u64))
        } else {
            BinCellView::Complex64Arr(
                Seq::new(
                    n,
                    |i: int|
                        (be_at(raw, off, 2 * i, 8) as u64, be_at(raw, off, 2 * i + 1, 8) as u64),
                ),
            )
        },
        TFormType::ArrayD32(_, _) => BinCellView::Null,
        TFormType::ArrayD64(_, _) => BinCellView::Null,
    }
}

/// The offset of column `col` in a row: the sizes of the columns before
/// it, added up.
pub open spec fn column_offset(columns: Seq<BinColumnView>, col: int) -> nat
    decreases col,
{
    if col <= 0 {
        0
    } else {
        column_offset(columns, col - 1) + byte_size(columns[col - 1].tform)
    }
}

/// The cell in a row and a column of a table.
///
/// A row or a column that the table does not have is reported, the row
/// first. A variable-length array is not decoded. A cell whose bytes the
/// table does not hold is reported with the number of bytes that would be
/// needed.
pub open spec fn cell_of_table(t: BinTableView, row: usize, col: usize) -> Result<
    BinCellView,
    ErrorView,
> {
    let off = t.rowbytes * row + column_offset(t.columns, col as int);
    let form = t.columns[col as int].tform;
    if row >= t.nrows {
        Err(ErrorView::InvalidRow(row, t.nrows))
    } else if col >= t.ncols {
        Err(ErrorView::InvalidColumn(col, t.ncols))
    } else if form.dtype is ArrayD32 || form.dtype is ArrayD64 {
        Err(ErrorView::GenericError("Array Types Not Yet Implemented"@))
    } else if off + byte_size(form) > t.raw.len() {
        Err(ErrorView::InvalidDataSize(capped((off + byte_size(form)) as nat), t.raw.len() as usize))
    } else {
        Ok(cell_at(t.raw, off as int, form))
    }
}

/// What the header says of column `i`, counted from 0. `TFORM` is
/// required; of the other keywords those count that hold a value of their
/// type.
pub open spec fn bin_column_of(h: Seq<KeywordView>, i: int) -> Result<BinColumnView, ErrorView> {
    let n = (i + 1) as nat;
    match value_of(h, numbered("TFORM"@, n)) {
        None => Err(ErrorView::MissingKeyword(numbered("TFORM"@, n))),
        Some(ValueView::String(s)) => match tform_of(encode_utf8(s), s) {
            Err(e) => Err(e),
            Ok(tform) => Ok(
                BinColumnView {
                    name: string_of_key(h, numbered("TTYPE"@, n)),
                    scale: real_of_key(h, numbered("TSCAL"@, n)),
                    zero: real_of_key(h, numbered("TZERO"@, n)),
                    tdisp: TDisp::Absent,
                    unit: string_of_key(h, numbered("TUNIT"@, n)),
                    tdmin: real_of_key(h, numbered("TDMIN"@, n)),
                    tdmax: real_of_key(h, numbered("TDMAX"@, n)),
                    tlmin: real_of_key(h, numbered("TLMIN"@, n)),
                    tlmax: real_of_key(h, numbered("TLMAX"@, n)),
                    tnull: int_of_key(h, numbered("TNULL"@, n)),
                    tform,
                },
            ),
        },
        Some(_) => Err(ErrorView::UnexpectedValueType(numbered("TFORM"@, n))),
    }
}

/// What the keywords at the head of the header say of a binary table: the
/// width of a row, the number of rows, the size of the heap and the number
/// of fields.
pub open spec fn bintable_layout(h: Seq<KeywordView>) -> Result<
    (usize, usize, usize, usize),
    ErrorView,
> {
    let bitpix = int_is(h, 1, "BITPIX"@, 8);
    let naxis = int_is(h, 2, "NAXIS"@, 2);
    let naxis1 = size_at(h, 3, "NAXIS1"@);
    let naxis2 = size_at(h, 4, "NAXIS2"@);
    let pcount = size_at(h, 5, "PCOUNT"@);
    let gcount = int_is(h, 6, "GCOUNT"@, 1);
    let tfields = size_at(h, 7, "TFIELDS"@);
    if bitpix is Err {
        Err(bitpix->Err_0)
    } else if naxis is Err {
        Err(naxis->Err_0)
    } else if naxis1 is Err {
        Err(naxis1->Err_0)
    } else if naxis2 is Err {
        Err(naxis2->Err_0)
    } else if pcount is Err {
        Err(pcount->Err_0)
    } else if gcount is Err {
        Err(gcount->Err_0)
    } else if tfields is Err {
        Err(tfields->Err_0)
    } else {
        Ok((naxis1->Ok_0, naxis2->Ok_0, pcount->Ok_0, tfields->Ok_0))
    }
}

/// The offset of the heap: what `THEAP` gives, and else the size of the
/// rows.
pub open spec fn theap_of(h: Seq<KeywordView>, rowbytes: usize, nrows: usize, available: nat) -> Result<
    usize,
    ErrorView,
> {
    match int_of_key(h, "THEAP"@) {
        Some(v) => if 0 <= v <= usize::MAX {
            Ok(v as usize)
        } else {
            Err(ErrorView::UnexpectedKeywordValue("THEAP"@, ValueView::Int(v)))
        },
        None => if rowbytes * nrows <= usize::MAX {
            Ok((rowbytes * nrows) as usize)
        } else {
            Err(ErrorView::InvalidDataSize(usize::MAX, available as usize))
        },
    }
}

/// The binary table that a header and the bytes behind it hold, and the
/// number of bytes that the table takes: the offset of the heap and its
/// size.
#[verifier::opaque]
pub open spec fn bintable_of(h: Seq<KeywordView>, data: Seq<u8>) -> Result<
    (BinTableView, usize),
    ErrorView,
> {
    match bintable_layout(h) {
        Err(e) => Err(e),
        Ok((rowbytes, nrows, pcount, ncols)) => match theap_of(h, rowbytes, nrows, data.len()) {
            Err(e) => Err(e),
            Ok(theap) => match collect(|i: int| bin_column_of(h, i), ncols as int) {
                Err(e) => Err(e),
                Ok(columns) => if pcount + theap > data.len() {
                    Err(
                        ErrorView::InvalidDataSize(
                            capped((pcount + theap) as nat),
                            data.len() as usize,
                        ),
                    )
                } else {
                    Ok(
                        (
                            BinTableView {
                                ncols,
                                nrows,
                                theap,
                                pcount,
                                rowbytes,
                                columns,
                                raw: data.subrange(0, pcount + theap),
                            },
                            (pcount + theap) as usize,
                        ),
                    )
                },
            },
        },
    }
}

/// Whether `r` is what decoding a binary table is to give: the error, or
/// the table and its size.
pub open spec fn bintable_decoded(
    r: Result<(HDUData, usize), FITSError>,
    expected: Result<(BinTableView, usize), ErrorView>,
) -> bool {
    match expected {
        Err(e) => r is Err && r->Err_0@ == e,
        Ok((t, n)) => r is Ok && r->Ok_0.0 is BinTable && r->Ok_0.0->BinTable_0@ == t
            && r->Ok_0.0->BinTable_0.wf() && r->Ok_0.1 == n,
    }
}

/// The string value of a keyword that the header must hold.
fn string_or_err(header: &Header, kw: &str) -> (r: Result<String, FITSError>)
    ensures
        match r {
            Ok(s) => value_of(header@, kw@) == Some(ValueView::String(s@)),
            Err(e) => match value_of(header@, kw@) {
                None => e@ == ErrorView::MissingKeyword(kw@),
                Some(v) => !(v is String) && e@ == ErrorView::UnexpectedValueType(kw@),
            },
        },
{
    match header.value(kw) {
        Some(KeywordValue::String(s)) => Ok(s.clone()),
        Some(_) => Err(FITSError::UnexpectedValueType(kw.to_owned())),
        None => Err(FITSError::MissingKeyword(kw.to_owned())),
    }
}

fn read_bin_column(header: &Header, i: usize) -> (r: Result<BinColumn, FITSError>)
    requires
        i < usize::MAX,
    ensures
        outcome(r) == bin_column_of(header@, i as int),
        r is Ok ==> r->Ok_0.tform.wf(),
{
    let n = i + 1;
    let text = match string_or_err(header, numbered_name("TFORM", n).as_str()) {
        Ok(s) => s,
        Err(e) => {
            return Err(e);
        },
    };
    let tform = match TForm::from_string(text.as_str()) {
        Ok(t) => t,
        Err(e) => {
            return Err(e);
        },
    };
    Ok(
        BinColumn {
            name: header.value_string(numbered_name("TTYPE", n).as_str()),
            scale: header.value_float(numbered_name("TSCAL", n).as_str()),
            zero: header.value_float(numbered_name("TZERO", n).as_str()),
            tdisp: TDisp::Absent,
            unit: header.value_string(numbered_name("TUNIT", n).as_str()),
            tdmin: header.value_float(numbered_name("TDMIN", n).as_str()),
            tdmax: header.value_float(numbered_name("TDMAX", n).as_str()),
            tlmin: header.value_float(numbered_name("TLMIN", n).as_str()),
            tlmax: header.value_float(numbered_name("TLMAX", n).as_str()),
            tnull: header.value_int(numbered_name("TNULL", n).as_str()),
            tform,
        },
    )
}

fn read_bin_columns(header: &Header, ncols: usize) -> (r: Result<Vec<BinColumn>, FITSError>)
    ensures
        match r {
            Ok(c) => collect(|i: int| bin_column_of(header@, i), ncols as int) == Ok::<
                Seq<BinColumnView>,
                ErrorView,
            >(bin_columns_view(c@)) && c@.len() == ncols && forall|k: int|
                0 <= k < c@.len() ==> (#[trigger] c@[k]).tform.wf(),
            Err(e) => collect(|i: int| bin_column_of(header@, i), ncols as int) == Err::<
                Seq<BinColumnView>,
                ErrorView,
            >(e@),
        },
{
    let ghost h = header@;
    let ghost f = |i: int| bin_column_of(h, i);
    let mut columns: Vec<BinColumn> = Vec::new();
    let mut i: usize = 0;
    while i < ncols
        invariant
            i <= ncols,
            h == header@,
            f == (|i: int| bin_column_of(h, i)),
            columns@.len() == i,
            first_bad(f, ncols as int, 0) == first_bad(f, ncols as int, i as int),
            forall|k: int|
                0 <= k < i ==> f(k) == Ok::<BinColumnView, ErrorView>(#[trigger] columns@[k]@),
            forall|k: int| 0 <= k < i ==> (#[trigger] columns@[k]).tform.wf(),
        decreases ncols - i,
    {
        match read_bin_column(header, i) {
            Ok(c) => {
                columns.push(c);
            },
            Err(e) => {
                return Err(e);
            },
        }
        i += 1;
    }
    proof {
        assert(bin_columns_view(columns@) =~= collect(f, ncols as int)->Ok_0);
    }
    Ok(columns)
}

fn read_bintable_layout(header: &Header) -> (r: Result<(usize, usize, usize, usize), FITSError>)
    ensures
        outcome(r) == bintable_layout(header@),
{
    match check_int_keyword_at_index(header, 1, "BITPIX", 8) {
        Ok(_) => {},
        Err(e) => {
            return Err(e);
        },
    }
    match check_int_keyword_at_index(header, 2, "NAXIS", 2) {
        Ok(_) => {},
        Err(e) => {
            return Err(e);
        },
    }
    let rowbytes = match get_keyword_size_at_index(header, 3, "NAXIS1") {
        Ok(n) => n,
        Err(e) => {
            return Err(e);
        },
    };
    let nrows = match get_keyword_size_at_index(header, 4, "NAXIS2") {
        Ok(n) => n,
        Err(e) => {
            return Err(e);
        },
    };
    let pcount = match get_keyword_size_at_index(header, 5, "PCOUNT") {
        Ok(n) => n,
        Err(e) => {
            return Err(e);
        },
    };
    match check_int_keyword_at_index(header, 6, "GCOUNT", 1) {
        Ok(_) => {},
        Err(e) => {
            return Err(e);
        },
    }
    let ncols = match get_keyword_size_at_index(header, 7, "TFIELDS") {
        Ok(n) => n,
        Err(e) => {
            return Err(e);
        },
    };
    Ok((rowbytes, nrows, pcount, ncols))
}

fn read_theap(header: &Header, rowbytes: usize, nrows: usize, available: usize) -> (r: Result<
    usize,
    FITSError,
>)
    ensures
        outcome(r) == theap_of(header@, rowbytes, nrows, available as nat),
{
    match header.value_int("THEAP") {
        Some(v) => {
            if v < 0 || v as u64 > usize::MAX as u64 {
                Err(FITSError::UnexpectedKeywordValue("THEAP".to_owned(), KeywordValue::Int(v)))
            } else {
                Ok(v as usize)
            }
        },
        None => match rowbytes.checked_mul(nrows) {
            Some(n) => Ok(n),
            None => Err(FITSError::InvalidDataSize(usize::MAX, available)),
        },
    }
}

fn to_i16(v: u64) -> (r: i16)
    requires
        v < radix(2),
    ensures
        r == signed(v as nat, 2),
{
    if v < 0x8000 {
        v as i16
    } else {
        (v as i64 - 0x1_0000) as i16
    }
}

fn to_i32(v: u64) -> (r: i32)
    requires
        v < radix(4),
    ensures
        r == signed(v as nat, 4),
{
    if v < 0x8000_0000 {
        v as i32
    } else {
        (v as i64 - 0x1_0000_0000) as i32
    }
}

fn to_i64(v: u64) -> (r: i64)
    ensures
        r == signed(v as nat, 8),
{
    if v < 0x8000_0000_0000_0000 {
        v as i64
    } else {
        (v as i128 - 0x1_0000_0000_0000_0000) as i64
    }
}

/// Reads element `i` of `width` bytes, where the elements start at `off`.
fn read_at(raw: &[u8], off: usize, i: usize, width: usize, n: usize) -> (r: u64)
    requires
        1 <= width <= 8,
        i < n,
        off + n * width <= raw@.len(),
    ensures
        r == be_at(raw@, off as int, i as int, width as int),
        r < radix(width as int),
{
    let len: usize = raw.len();
    proof {
        assert((i + 1) * width <= n * width) by (nonlinear_arith)
            requires
                i + 1 <= n,
                width >= 0,
        ;
        assert((i + 1) * width == i * width + width) by (nonlinear_arith);
        assert(0 <= i * width) by (nonlinear_arith)
            requires
                i >= 0,
                width >= 0,
        ;
    }
    read_be(raw, off + i * width, width)
}

fn is_bit_set(b: u8, j: u8) -> (r: bool)
    requires
        j < 8,
    ensures
        r == bit_of(b, j),
{
    b & (1u8 << j) != 0
}

fn read_i16s(raw: &[u8], off: usize, n: usize) -> (r: Vec<i16>)
    requires
        off + n * 2 <= raw@.len(),
    ensures
        r@ == Seq::new(n as nat, |i: int| signed(be_at(raw@, off as int, i, 2), 2) as i16),
{
    let mut out: Vec<i16> = Vec::with_capacity(n);
    let mut i: usize = 0;
    while i < n
        invariant
            i <= n,
            off + n * 2 <= raw@.len(),
            out@ == Seq::new(i as nat, |i: int| signed(be_at(raw@, off as int, i, 2), 2) as i16),
        decreases n - i,
    {
        let v = read_at(raw, off, i, 2, n);
        out.push(to_i16(v));
        assert(out@ =~= Seq::new((i + 1) as nat, |i: int| signed(be_at(raw@, off as int, i, 2), 2) as i16));
        i += 1;
    }
    out
}

fn read_i32s(raw: &[u8], off: usize, n: usize) -> (r: Vec<i32>)
    requires
        off + n * 4 <= raw@.len(),
    ensures
        r@ == Seq::new(n as nat, |i: int| signed(be_at(raw@, off as int, i, 4), 4) as i32),
{
    let mut out: Vec<i32> = Vec::with_capacity(n);
    let mut i: usize = 0;
    while i < n
        invariant
            i <= n,
            off + n * 4 <= raw@.len(),
            out@ == Seq::new(i as nat, |i: int| signed(be_at(raw@, off as int, i, 4), 4) as i32),
        decreases n - i,
    {
        let v = read_at(raw, off, i, 4, n);
        out.push(to_i32(v));
        assert(out@ =~= Seq::new((i + 1) as nat, |i: int| signed(be_at(raw@, off as int, i, 4), 4) as i32));
        i += 1;
    }
    out
}

fn read_i64s(raw: &[u8], off: usize, n: usize) -> (r: Vec<i64>)
    requires
        off + n * 8 <= raw@.len(),
    ensures
        r@ == Seq::new(n as nat, |i: int| signed(be_at(raw@, off as int, i, 8), 8) as i64),
{
    let mut out: Vec<i64> = Vec::with_capacity(n);
    let mut i: usize = 0;
    while i < n
        invariant
            i <= n,
            off + n * 8 <= raw@.len(),
            out@ == Seq::new(i as nat, |i: int| signed(be_at(raw@, off as int, i, 8), 8) as i64),
        decreases n - i,
    {
        let v = read_at(raw, off, i, 8, n);
        out.push(to_i64(v));
        assert(out@ =~= Seq::new((i + 1) as nat, |i: int| signed(be_at(raw@, off as int, i, 8), 8) as i64));
        i += 1;
    }
    out
}

fn read_u32s(raw: &[u8], off: usize, n: usize) -> (r: Vec<u32>)
    requires
        off + n * 4 <= raw@.len(),
    ensures
        r@ == Seq::new(n as nat, |i: int| be_at(raw@, off as int, i, 4) as u32),
{
    let mut out: Vec<u32> = Vec::with_capacity(n);
    let mut i: usize = 0;
    while i < n
        invariant
            i <= n,
            off + n * 4 <= raw@.len(),
            out@ == Seq::new(i as nat, |i: int| be_at(raw@, off as int, i, 4) as u32),
        decreases n - i,
    {
        let v = read_at(raw, off, i, 4, n);
        out.push(v as u32);
        assert(out@ =~= Seq::new((i + 1) as nat, |i: int| be_at(raw@, off as int, i, 4) as u32));
        i += 1;
    }
    out
}

fn read_u64s(raw: &[u8], off: usize, n: usize) -> (r: Vec<u64>)
    requires
        off + n * 8 <= raw@.len(),
    ensures
        r@ == Seq::new(n as nat, |i: int| be_at(raw@, off as int, i, 8) as u64),
{
    let mut out: Vec<u64> = Vec::with_capacity(n);
    let mut i: usize = 0;
    while i < n
        invariant
            i <= n,
            off + n * 8 <= raw@.len(),
            out@ == Seq::new(i as nat, |i: int| be_at(raw@, off as int, i, 8) as u64),
        decreases n - i,
    {
        let v = read_at(raw, off, i, 8, n);
        out.push(v);
        assert(out@ =~= Seq::new((i + 1) as nat, |i: int| be_at(raw@, off as int, i, 8) as u64));
        i += 1;
    }
    out
}

fn read_pairs32(raw: &[u8], off: usize, n: usize) -> (r: Vec<(u32, u32)>)
    requires
        off + n * 8 <= raw@.len(),
    ensures
        r@ == Seq::new(n as nat, |i: int| (be_at(raw@, off as int, 2 * i, 4) as u32, be_at(raw@, off as int, 2 * i + 1, 4) as u32)),
{
    let mut out: Vec<(u32, u32)> = Vec::with_capacity(n);
    let len: usize = raw.len();
    let mut i: usize = 0;
    while i < n
        invariant
            i <= n,
            off + n * 8 <= raw@.len() == len,
            out@ == Seq::new(i as nat, |i: int| (be_at(raw@, off as int, 2 * i, 4) as u32, be_at(raw@, off as int, 2 * i + 1, 4) as u32)),
        decreases n - i,
    {
        let re = read_at(raw, off, 2 * i, 4, 2 * n);
        let im = read_at(raw, off, 2 * i + 1, 4, 2 * n);
        out.push((re as u32, im as u32));
        assert(out@ =~= Seq::new((i + 1) as nat, |i: int| (be_at(raw@, off as int, 2 * i, 4) as u32, be_at(raw@, off as int, 2 * i + 1, 4) as u32)));
        i += 1;
    }
    out
}

fn read_pairs64(raw: &[u8], off: usize, n: usize) -> (r: Vec<(u64, u64)>)
    requires
        off + n * 16 <= raw@.len(),
    ensures
        r@ == Seq::new(n as nat, |i: int| (be_at(raw@, off as int, 2 * i, 8) as u64, be_at(raw@, off as int, 2 * i + 1, 8) as u64)),
{
    let mut out: Vec<(u64, u64)> = Vec::with_capacity(n);
    let len: usize = raw.len();
    let mut i: usize = 0;
    while i < n
        invariant
            i <= n,
            off + n * 16 <= raw@.len() == len,
            out@ == Seq::new(i as nat, |i: int| (be_at(raw@, off as int, 2 * i, 8) as u64, be_at(raw@, off as int, 2 * i + 1, 8) as u64)),
        decreases n - i,
    {
        let re = read_at(raw, off, 2 * i, 8, 2 * n);
        let im = read_at(raw, off, 2 * i + 1, 8, 2 * n);
        out.push((re as u64, im as u64));
        assert(out@ =~= Seq::new((i + 1) as nat, |i: int| (be_at(raw@, off as int, 2 * i, 8) as u64, be_at(raw@, off as int, 2 * i + 1, 8) as u64)));
        i += 1;
    }
    out
}

fn read_bools(raw: &[u8], off: usize, n: usize) -> (r: Vec<bool>)
    requires
        off + n <= raw@.len(),
    ensures
        r@ == Seq::new(n as nat, |i: int| raw@[off + i] != 0),
{
    let len: usize = raw.len();
    let mut out: Vec<bool> = Vec::with_capacity(n);
    let mut i: usize = 0;
    while i < n
        invariant
            i <= n,
            off + n <= raw@.len() == len,
            out@ == Seq::new(i as nat, |i: int| raw@[off + i] != 0),
        decreases n - i,
    {
        out.push(raw[off + i] != 0);
        assert(out@ =~= Seq::new((i + 1) as nat, |i: int| raw@[off + i] != 0));
        i += 1;
    }
    out
}

fn read_u8s(raw: &[u8], off: usize, n: usize) -> (r: Vec<u8>)
    requires
        off + n <= raw@.len(),
    ensures
        r@ == Seq::new(n as nat, |i: int| raw@[off + i]),
{
    let len: usize = raw.len();
    let mut out: Vec<u8> = Vec::with_capacity(n);
    let mut i: usize = 0;
    while i < n
        invariant
            i <= n,
            off + n <= raw@.len() == len,
            out@ == Seq::new(i as nat, |i: int| raw@[off + i]),
        decreases n - i,
    {
        out.push(raw[off + i]);
        assert(out@ =~= Seq::new((i + 1) as nat, |i: int| raw@[off + i]));
        i += 1;
    }
    out
}

/// The bits of `nbytes` bytes, the least significant bit of each byte
/// first.
fn read_bits(raw: &[u8], off: usize, nbytes: usize) -> (r: Vec<bool>)
    requires
        off + nbytes <= raw@.len(),
    ensures
        r@ == Seq::new(
            (8 * nbytes) as nat,
            |i: int| bit_of(raw@[off + i / 8], (i % 8) as u8),
        ),
{
    let len: usize = raw.len();
    let mut out: Vec<bool> = Vec::new();
    let mut i: usize = 0;
    while i < nbytes
        invariant
            i <= nbytes,
            off + nbytes <= raw@.len() == len,
            out@ == Seq::new((8 * i) as nat, |k: int| bit_of(raw@[off + k / 8], (k % 8) as u8)),
        decreases nbytes - i,
    {
        let byte = raw[off + i];
        let mut j: u8 = 0;
        while j < 8
            invariant
                j <= 8,
                i < nbytes,
                off + nbytes <= raw@.len(),
                byte == raw@[off + i],
                out@ == Seq::new(
                    (8 * i + j) as nat,
                    |k: int| bit_of(raw@[off + k / 8], (k % 8) as u8),
                ),
            decreases 8 - j,
        {
            out.push(is_bit_set(byte, j));
            assert(out@ =~= Seq::new(
                (8 * i + j + 1) as nat,
                |k: int| bit_of(raw@[off + k / 8], (k % 8) as u8),
            ));
            j += 1;
        }
        i += 1;
    }
    out
}

/// Whether a form is that of a variable-length array.
pub fn is_array(t: &TFormType) -> (r: bool)
    ensures
        r == (*t is ArrayD32 || *t is ArrayD64),
{
    match t {
        TFormType::ArrayD32(_, _) => true,
        TFormType::ArrayD64(_, _) => true,
        _ => false,
    }
}

/// Decodes the cell of a column of form `form` whose bytes start at `off`.
fn decode_cell(raw: &[u8], off: usize, form: &TForm) -> (r: BinTableValue)
    requires
        form.wf(),
        !(form.dtype is ArrayD32 || form.dtype is ArrayD64),
        off + byte_size(*form) <= raw@.len(),
    ensures
        r@ == cell_at(raw@, off as int, *form),
{
    let n = form.repeats;
    let one = n == 1;
    let size = form.bytes();
    let len: usize = raw.len();
    match &form.dtype {
        TFormType::Logical => {
            assert(byte_size(*form) == n * 1);
            if one {
            BinTableValue::Logical(raw[off] != 0)
        } else {
            BinTableValue::LogicalArr(read_bools(raw, off, n))
            }
        },
        TFormType::Bit => if one {
            BinTableValue::Bit(raw[off] != 0)
        } else {
            BinTableValue::BitArr(read_bits(raw, off, size))
        },
        TFormType::UnsignedByte => {
            assert(byte_size(*form) == n * 1);
            if one {
            BinTableValue::UnsignedByte(raw[off])
        } else {
            BinTableValue::UnsignedByteArr(read_u8s(raw, off, n))
            }
        },
        TFormType::Int16 => {
            assert(byte_size(*form) == n * 2);
            if one {
            BinTableValue::Int16(to_i16(read_at(raw, off, 0, 2, 1)))
        } else {
            BinTableValue::Int16Arr(read_i16s(raw, off, n))
            }
        },
        TFormType::Int32 => {
            assert(byte_size(*form) == n * 4);
            if one {
            BinTableValue::Int32(to_i32(read_at(raw, off, 0, 4, 1)))
        } else {
            BinTableValue::Int32Arr(read_i32s(raw, off, n))
            }
        },
        TFormType::Int64 => {
            assert(byte_size(*form) == n * 8);
            if one {
            BinTableValue::Int64(to_i64(read_at(raw, off, 0, 8, 1)))
        } else {
            BinTableValue::Int64Arr(read_i64s(raw, off, n))
            }
        },
        TFormType::Char => {
            assert(byte_size(*form) == n * 1);
            if one {
            BinTableValue::Char(raw[off] as char)
        } else {
            BinTableValue::String(crate::strings::string_of(slice_subrange(raw, off, off + n)))
            }
        },
        TFormType::Float32 => {
            assert(byte_size(*form) == n * 4);
            if one {
            BinTableValue::Float32(read_at(raw, off, 0, 4, 1) as u32)
        } else {
            BinTableValue::Float32Arr(read_u32s(raw, off, n))
            }
        },
        TFormType::Float64 => {
            assert(byte_size(*form) == n * 8);
            if one {
            BinTableValue::Float64(read_at(raw, off, 0, 8, 1))
        } else {
            BinTableValue::Float64Arr(read_u64s(raw, off, n))
            }
        },
        TFormType::Complex32 => {
            assert(byte_size(*form) == n * 8);
            if one {
            BinTableValue::Complex32(
                (read_at(raw, off, 0, 4, 2) as u32, read_at(raw, off, 1, 4, 2) as u32),
            )
        } else {
            BinTableValue::Complex32Arr(read_pairs32(raw, off, n))
            }
        },
        TFormType::Complex64 => {
            assert(byte_size(*form) == n * 16);
            if one {
            BinTableValue::Complex64((read_at(raw, off, 0, 8, 2), read_at(raw, off, 1, 8, 2)))
        } else {
            BinTableValue::Complex64Arr(read_pairs64(raw, off, n))
            }
        },
        TFormType::ArrayD32(_, _) => BinTableValue::Null,
        TFormType::ArrayD64(_, _) => BinTableValue::Null,
    }
}

/// The offset of a column is not less than that of a column before it.
pub proof fn lemma_column_offset_grows(columns: Seq<BinColumnView>, i: int, col: int)
    requires
        0 <= i <= col,
    ensures
        column_offset(columns, i) <= column_offset(columns, col),
    decreases col - i,
{
    if i < col {
        lemma_column_offset_grows(columns, i, col - 1);
    }
}

impl BinTable {
    /// The table has as many columns as it says, and the size of each is a
    /// number that a `usize` holds.
    pub open spec fn wf(&self) -> bool {
        &&& self.columns@.len() == self.ncols
        &&& forall|k: int| 0 <= k < self.columns@.len() ==> (#[trigger] self.columns@[k]).tform.wf()
    }

    /// Whether the table is well formed.
    pub fn is_wf(&self) -> (r: bool)
        ensures
            r == self.wf(),
    {
        if self.columns.len() != self.ncols {
            return false;
        }
        let mut k: usize = 0;
        while k < self.columns.len()
            invariant
                k <= self.columns@.len(),
                forall|j: int| 0 <= j < k ==> (#[trigger] self.columns@[j]).tform.wf(),
            decreases self.columns@.len() - k,
        {
            if !self.columns[k].tform.is_wf() {
                return false;
            }
            k += 1;
        }
        true
    }

    /// Decodes the binary table that a header announces from the bytes
    /// that follow the header. Gives the table and the number of bytes that
    /// it takes.
    pub fn from_bytes(header: &Header, rawbytes: &[u8]) -> (r: Result<(HDUData, usize), FITSError>)
        ensures
            bintable_decoded(r, bintable_of(header@, rawbytes@)),
            r is Ok ==> r->Ok_0.1 <= rawbytes@.len(),
    {
        reveal(bintable_of);
        let len: usize = rawbytes.len();
        let (rowbytes, nrows, pcount, ncols) = match read_bintable_layout(header) {
            Ok(l) => l,
            Err(e) => {
                return Err(e);
            },
        };
        let theap = match read_theap(header, rowbytes, nrows, len) {
            Ok(n) => n,
            Err(e) => {
                return Err(e);
            },
        };
        let columns = match read_bin_columns(header, ncols) {
            Ok(c) => c,
            Err(e) => {
                return Err(e);
            },
        };
        let nbytes = match pcount.checked_add(theap) {
            Some(n) => n,
            None => {
                return Err(FITSError::InvalidDataSize(usize::MAX, len));
            },
        };
        if len < nbytes {
            return Err(FITSError::InvalidDataSize(nbytes, len));
        }
        let raw = slice_to_vec(slice_subrange(rawbytes, 0, nbytes));
        let table = BinTable { ncols, nrows, theap, pcount, rowbytes, columns, raw };
        Ok((HDUData::BinTable(Box::new(table)), nbytes))
    }

    /// The offset of a cell in the bytes of the table, if a `usize` holds
    /// it.
    fn cell_offset(&self, row: usize, col: usize) -> (r: Option<usize>)
        requires
            self.wf(),
            col < self.ncols,
        ensures
            match r {
                Some(off) => off == self.rowbytes * row + column_offset(self@.columns, col as int),
                None => self.rowbytes * row + column_offset(self@.columns, col as int)
                    > usize::MAX,
            },
    {
        let ghost cols = self@.columns;
        let mut acc: usize = 0;
        let mut i: usize = 0;
        while i < col
            invariant
                i <= col < self.ncols,
                self.wf(),
                cols == self@.columns,
                acc == column_offset(cols, i as int),
            decreases col - i,
        {
            assert(self.columns@[i as int].tform.wf());
            let size = self.columns[i].tform.bytes();
            assert(cols[i as int].tform == self.columns@[i as int].tform);
            match acc.checked_add(size) {
                Some(n) => {
                    acc = n;
                },
                None => {
                    proof {
                        lemma_column_offset_grows(cols, i + 1, col as int);
                        assert(0 <= self.rowbytes * row) by (nonlinear_arith);
                    }
                    return None;
                },
            }
            i += 1;
        }
        match self.rowbytes.checked_mul(row) {
            Some(base) => base.checked_add(acc),
            None => None,
        }
    }

    /// The cell in a row and a column, both counted from 0.
    pub fn at(&self, row: usize, col: usize) -> (r: Result<BinTableValue, FITSError>)
        requires
            self.wf(),
        ensures
            outcome(r) == cell_of_table(self@, row, col),
    {
        if row >= self.nrows {
            return Err(FITSError::InvalidRow(row, self.nrows));
        }
        if col >= self.ncols {
            return Err(FITSError::InvalidColumn(col, self.ncols));
        }
        let form = &self.columns[col].tform;
        assert(self@.columns[col as int].tform == *form);
        assert(self.columns@[col as int].tform.wf());
        if is_array(&form.dtype) {
            return Err(generic("Array Types Not Yet Implemented"));
        }
        let len: usize = self.raw.len();
        let size = form.bytes();
        let end = match self.cell_offset(row, col) {
            Some(off) => off.checked_add(size),
            None => None,
        };
        match end {
            Some(e) => {
                if e > len {
                    return Err(FITSError::InvalidDataSize(e, len));
                }
                Ok(decode_cell(self.raw.as_slice(), e - size, form))
            },
            None => Err(FITSError::InvalidDataSize(usize::MAX, len)),
        }
    }
}

/// The name of the keyword required at a position from 1 to 7 of the
/// header of a binary table.
pub open spec fn bintable_name_at(k: int) -> Seq<char> {
    if k == 1 {
        "BITPIX"@
    } else if k == 2 {
        "NAXIS"@
    } else if k == 3 {
        "NAXIS1"@
    } else if k == 4 {
        "NAXIS2"@
    } else if k == 5 {
        "PCOUNT"@
    } else if k == 6 {
        "GCOUNT"@
    } else {
        "TFIELDS"@
    }
}

/// A binary table is decoded only from a header whose positions 1 to 7
/// hold the required keywords in their order.
pub proof fn lemma_bintable_needs_positions(h: Seq<KeywordView>, data: Seq<u8>)
    requires
        bintable_of(h, data) is Ok,
    ensures
        forall|k: int| 1 <= k <= 7 ==> in_place(h, k, #[trigger] bintable_name_at(k)),
{
    reveal(bintable_of);
    assert(bintable_layout(h) is Ok);
    assert forall|k: int| 1 <= k <= 7 implies in_place(h, k, #[trigger] bintable_name_at(k)) by {
        crate::utils::lemma_not_in_place(h, k, bintable_name_at(k), 1);
        crate::utils::lemma_not_in_place(h, k, bintable_name_at(k), 2);
        crate::utils::lemma_not_in_place(h, k, bintable_name_at(k), 8);
    }
}

/// Where the first of the positions 1 to 7 that does not hold its required
/// keyword is position `k`, and the keywords before it are those of a
/// header from which a binary table can be decoded, decoding fails, and
/// reports the keyword of position `k` as missing or as misplaced. This is
/// what comes of taking out or of exchanging required keywords of a valid
/// header.
pub proof fn lemma_bintable_positions_are_checked(
    valid: Seq<KeywordView>,
    h: Seq<KeywordView>,
    k: int,
    data: Seq<u8>,
)
    requires
        bintable_layout(valid) is Ok,
        1 <= k <= 7,
        forall|j: int| 0 <= j < k ==> j < h.len() && h[j] == valid[j],
        !in_place(h, k, bintable_name_at(k)),
    ensures
        bintable_of(h, data) == Err::<(BinTableView, usize), ErrorView>(
            not_in_place(h, k, bintable_name_at(k)),
        ),
{
    reveal(bintable_of);
    assert(valid.len() > 7);
    assert forall|j: int| 1 <= j < k implies h[j] == valid[j] by {}
    assert(h[0] == valid[0]);
}

/// A column that the table does not have is reported with the column asked
/// for and the number of columns, whatever the table holds.
pub proof fn lemma_column_out_of_range(t: BinTableView, row: usize, col: usize)
    requires
        row < t.nrows,
        col >= t.ncols,
    ensures
        cell_of_table(t, row, col) == Err::<BinCellView, ErrorView>(
            ErrorView::InvalidColumn(col, t.ncols),
        ),
{
}

} // verus!
