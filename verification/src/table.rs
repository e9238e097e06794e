//! ASCII tables: rows of fixed width whose fields are written as text.
//!
//! A field is decoded by the form of its column alone: an integer as its
//! number, a real as its written text. Where a column has a scale or a zero
//! point, the number that the column means is the decoded number times the
//! scale plus the zero point; this library does not compute it, and the
//! cells are the same with and without them.

use crate::errors::{
    ErrorView, FITSError, collect, first_bad, generic, lemma_collect_agrees, outcome,
};
use crate::header::{Header, int_of_key, real_view, string_of_key, text_view, value_of};
use crate::image::{get_keyword_size_at_index, size_at};
use crate::keyword::{
    ByteClass, Keyword, KeywordValue, KeywordView, ValueView, all_in, bytes_in_class, read_real,
    real_of,
};
use crate::strings::{bytes_of, numbered, numbered_name, string_of};
use crate::tdisp::{TDisp, tdisp_of};
use crate::text::{
    POINT, UPPER_A, UPPER_D, UPPER_E, UPPER_F, UPPER_I, bytes_eq, chars_of, find_byte, find_from, i64_of,
    parse_i64, parse_usize, trim, trim_bytes, usize_of,
};
use crate::types::{HDUData, Real};
use crate::utils::{check_int_keyword_at_index, in_place, int_is, not_in_place};
use vstd::prelude::*;
use vstd::slice::slice_subrange;
use vstd::utf8::encode_utf8;

verus! {

/// How the fields of a column are written, as a `TFORM` keyword says it:
/// the width of the field and, for a real, the number of digits behind the
/// point.
#[derive(Debug, Clone, Copy, PartialEq, Eq, Structural)]
pub enum FieldForm {
    /// `Aw`: characters.
    Char(usize),
    /// `Iw`: an integer.
    Int(usize),
    /// `Fw.d`: a real in fixed-point form.
    FloatDec(usize, usize),
    /// `Ew.d`: a real with an exponent.
    FloatE(usize, usize),
    /// `Dw.d`: a real with an exponent of double precision.
    FloatD(usize, usize),
}

impl View for FieldForm {
    type V = FieldForm;

    open spec fn view(&self) -> FieldForm {
        *self
    }
}

impl FieldForm {
    /// The width of the field in bytes.
    pub open spec fn spec_width(self) -> usize {
        match self {
            FieldForm::Char(w) => w,
            FieldForm::Int(w) => w,
            FieldForm::FloatDec(w, _) => w,
            FieldForm::FloatE(w, _) => w,
            FieldForm::FloatD(w, _) => w,
        }
    }

    /// The width of the field in bytes.
    pub fn width(&self) -> (r: usize)
        ensures
            r == self.spec_width(),
    {
        match self {
            FieldForm::Char(w) => *w,
            FieldForm::Int(w) => *w,
            FieldForm::FloatDec(w, _) => *w,
            FieldForm::FloatE(w, _) => *w,
            FieldForm::FloatD(w, _) => *w,
        }
    }
}

/// One cell of a table.
#[derive(Debug, PartialEq, Clone)]
pub enum TValue {
    /// The field holds the text that stands for no value in its column.
    Null,
    String(String),
    Int(i64),
    /// A number as the field writes it.
    Float(Real),
}

/// The model of a `TValue`.
pub enum CellView {
    Null,
    String(Seq<char>),
    Int(i64),
    Float(Seq<char>),
}

impl View for TValue {
    type V = CellView;

    open spec fn view(&self) -> CellView {
        match self {
            TValue::Null => CellView::Null,
            TValue::String(s) => CellView::String(s@),
            TValue::Int(i) => CellView::Int(*i),
            TValue::Float(x) => CellView::Float(x@),
        }
    }
}

/// What the header says of one column.
#[derive(Debug, PartialEq, Clone)]
pub struct Column {
    /// The name of the field (`TTYPE`).
    pub name: String,
    /// The position of the first byte of the field in a row, counted from 1
    /// (`TBCOL`).
    pub tbcol: i64,
    pub form: FieldForm,
    /// The text that stands for no value (`TNULL`).
    pub tnull: Option<String>,
    pub tdisp: TDisp,
    /// Scale converting from table data to physical units (`TSCAL`).
    pub scale: Option<Real>,
    /// Offset converting from table data to physical units (`TZERO`).
    pub zero: Option<Real>,
    pub unit: Option<String>,
    /// Minimum value of the field in the column.
    pub tdmin: Option<Real>,
    /// Maximum value of the field in the column.
    pub tdmax: Option<Real>,
    /// Minimum value of the field with a valid interpretation.
    pub tlmin: Option<Real>,
    /// Maximum value of the field with a valid interpretation.
    pub tlmax: Option<Real>,
}

/// The model of a `Column`.
pub struct ColumnView {
    pub name: Seq<char>,
    pub tbcol: i64,
    pub form: FieldForm,
    pub tnull: Option<Seq<char>>,
    pub tdisp: TDisp,
    pub scale: Option<Seq<char>>,
    pub zero: Option<Seq<char>>,
    pub unit: Option<Seq<char>>,
    pub tdmin: Option<Seq<char>>,
    pub tdmax: Option<Seq<char>>,
    pub tlmin: Option<Seq<char>>,
    pub tlmax: Option<Seq<char>>,
}

impl View for Column {
    type V = ColumnView;

    open spec fn view(&self) -> ColumnView {
        ColumnView {
            name: self.name@,
            tbcol: self.tbcol,
            form: self.form,
            tnull: text_view(self.tnull),
            tdisp: self.tdisp,
            scale: real_view(self.scale),
            zero: real_view(self.zero),
            unit: text_view(self.unit),
            tdmin: real_view(self.tdmin),
            tdmax: real_view(self.tdmax),
            tlmin: real_view(self.tlmin),
            tlmax: real_view(self.tlmax),
        }
    }
}

/// An ASCII table.
#[derive(Debug, PartialEq, Clone)]
pub struct Table {
    pub nfields: usize,
    /// The width of a row in bytes.
    pub rowbytes: usize,
    pub nrows: usize,
    pub columns: Vec<Column>,
    /// The table data, by rows.
    pub data: Vec<Vec<TValue>>,
}

/// The model of a `Table`.
pub struct TableView {
    pub nfields: usize,
    pub rowbytes: usize,
    pub nrows: usize,
    pub columns: Seq<ColumnView>,
    pub data: Seq<Seq<CellView>>,
}

/// The models of a list of columns.
pub open spec fn columns_view(v: Seq<Column>) -> Seq<ColumnView> {
    Seq::new(v.len(), |i: int| v[i]@)
}

/// The models of the cells of a row.
pub open spec fn cells_view(v: Seq<TValue>) -> Seq<CellView> {
    Seq::new(v.len(), |i: int| v[i]@)
}

/// The models of a list of rows.
pub open spec fn rows_view(v: Seq<Vec<TValue>>) -> Seq<Seq<CellView>> {
    Seq::new(v.len(), |i: int| cells_view(v[i]@))
}

impl View for Table {
    type V = TableView;

    open spec fn view(&self) -> TableView {
        TableView {
            nfields: self.nfields,
            rowbytes: self.rowbytes,
            nrows: self.nrows,
            columns: columns_view(self.columns@),
            data: rows_view(self.data@),
        }
    }
}

/// What every malformed `TFORM` of an ASCII table is reported as.
pub open spec fn bad_form() -> ErrorView {
    ErrorView::GenericError("Invalid TFORM value"@)
}

/// A width and a number of digits, written as `w.d`; what follows a second
/// point is not read.
pub open spec fn wd_of(s: Seq<u8>) -> Option<(usize, usize)> {
    let p = find_from(s, POINT, 0);
    if p < s.len() {
        match (usize_of(s.subrange(0, p)), usize_of(s.subrange(p + 1, find_from(s, POINT, p + 1)))) {
            (Some(w), Some(d)) => Some((w, d)),
            _ => None,
        }
    } else {
        None
    }
}

/// The form that the text `s` writes: a letter and the numbers behind it.
pub open spec fn form_of_text(s: Seq<u8>) -> Option<FieldForm> {
    let rest = s.skip(1);
    if s.len() < 2 {
        None
    } else if s[0] == UPPER_A {
        match usize_of(rest) {
            Some(w) => Some(FieldForm::Char(w)),
            None => None,
        }
    } else if s[0] == UPPER_I {
        match usize_of(rest) {
            Some(w) => Some(FieldForm::Int(w)),
            None => None,
        }
    } else if s[0] == UPPER_F || s[0] == UPPER_E || s[0] == UPPER_D {
        match wd_of(rest) {
            Some((w, d)) => Some(
                if s[0] == UPPER_F {
                    FieldForm::FloatDec(w, d)
                } else if s[0] == UPPER_E {
                    FieldForm::FloatE(w, d)
                } else {
                    FieldForm::FloatD(w, d)
                },
            ),
            None => None,
        }
    } else {
        None
    }
}

/// The form that a keyword value writes. Only a string writes one.
pub open spec fn form_of(value: ValueView) -> Result<FieldForm, ErrorView> {
    match value {
        ValueView::String(s) => match form_of_text(encode_utf8(s)) {
            Some(f) => Ok(f),
            None => Err(bad_form()),
        },
        _ => Err(bad_form()),
    }
}

/// The text of an optional keyword whose value must be a string.
pub open spec fn optional_text(h: Seq<KeywordView>, name: Seq<char>, message: Seq<char>) -> Result<
    Option<Seq<char>>,
    ErrorView,
> {
    match value_of(h, name) {
        None => Ok(None),
        Some(ValueView::String(s)) => Ok(Some(s)),
        Some(_) => Err(ErrorView::GenericError(message)),
    }
}

/// The number of an optional keyword whose value must be a real.
pub open spec fn optional_real(h: Seq<KeywordView>, name: Seq<char>, message: Seq<char>) -> Result<
    Option<Seq<char>>,
    ErrorView,
> {
    match value_of(h, name) {
        None => Ok(None),
        Some(ValueView::Float(x)) => Ok(Some(x)),
        Some(_) => Err(ErrorView::GenericError(message)),
    }
}

/// The form of column `n`, counted from 1, which the header must give.
pub open spec fn form_of_column(h: Seq<KeywordView>, n: nat) -> Result<FieldForm, ErrorView> {
    match value_of(h, numbered("TFORM"@, n)) {
        None => Err(ErrorView::GenericError("Missing TFORM keyword"@)),
        Some(v) => form_of(v),
    }
}

/// The display format of column `n`, counted from 1; none where the header
/// gives none.
pub open spec fn tdisp_of_column(h: Seq<KeywordView>, n: nat) -> Result<TDisp, ErrorView> {
    match value_of(h, numbered("TDISP"@, n)) {
        None => Ok(TDisp::Absent),
        Some(v) => tdisp_of(v),
    }
}

/// What the header says of column `i`, counted from 0. `TBCOL`, `TTYPE` and
/// `TFORM` are required; the keywords are read in the order `TBCOL`,
/// `TTYPE`, `TNULL`, `TFORM`, `TDISP`, `TSCAL`, `TZERO`, `TUNIT`, `TDMIN`,
/// `TDMAX`, `TLMIN`, `TLMAX`, and the first that is not as required is
/// reported.
pub open spec fn column_of(h: Seq<KeywordView>, i: int) -> Result<ColumnView, ErrorView> {
    let n = (i + 1) as nat;
    let tbcol = int_of_key(h, numbered("TBCOL"@, n));
    let name = string_of_key(h, numbered("TTYPE"@, n));
    let tnull = optional_text(h, numbered("TNULL"@, n), "Invalid TNULL value"@);
    let form = form_of_column(h, n);
    let tdisp = tdisp_of_column(h, n);
    let scale = optional_real(h, numbered("TSCAL"@, n), "Invalid TSCAL value"@);
    let zero = optional_real(h, numbered("TZERO"@, n), "Invalid TZERO value"@);
    let unit = optional_text(h, numbered("TUNIT"@, n), "Invalid TUNIT value"@);
    let tdmin = optional_real(h, numbered("TDMIN"@, n), "Invalid TDMIN value"@);
    let tdmax = optional_real(h, numbered("TDMAX"@, n), "Invalid TDMAX value"@);
    let tlmin = optional_real(h, numbered("TLMIN"@, n), "Invalid TLMIN value"@);
    let tlmax = optional_real(h, numbered("TLMAX"@, n), "Invalid TLMAX value"@);
    if tbcol is None {
        Err(ErrorView::GenericError("Missing or incorrect TBCOL keyword in table"@))
    } else if name is None {
        Err(ErrorView::GenericError("Missing or incorrect TTYPE keyword in table"@))
    } else if tnull is Err {
        Err(tnull->Err_0)
    } else if form is Err {
        Err(form->Err_0)
    } else if tdisp is Err {
        Err(tdisp->Err_0)
    } else if scale is Err {
        Err(scale->Err_0)
    } else if zero is Err {
        Err(zero->Err_0)
    } else if unit is Err {
        Err(unit->Err_0)
    } else if tdmin is Err {
        Err(tdmin->Err_0)
    } else if tdmax is Err {
        Err(tdmax->Err_0)
    } else if tlmin is Err {
        Err(tlmin->Err_0)
    } else if tlmax is Err {
        Err(tlmax->Err_0)
    } else {
        Ok(
            ColumnView {
                name: name->Some_0,
                tbcol: tbcol->Some_0,
                form: form->Ok_0,
                tnull: tnull->Ok_0,
                tdisp: tdisp->Ok_0,
                scale: scale->Ok_0,
                zero: zero->Ok_0,
                unit: unit->Ok_0,
                tdmin: tdmin->Ok_0,
                tdmax: tdmax->Ok_0,
                tlmin: tlmin->Ok_0,
                tlmax: tlmax->Ok_0,
            },
        )
    }
}

/// What a cell that cannot be decoded is reported as.
pub open spec fn bad_cell(message: Seq<char>) -> ErrorView {
    ErrorView::GenericError(message)
}

/// Whether the field of `width` bytes that starts at `start` lies in `row`
/// and is, byte for byte, the text that stands for no value.
pub open spec fn is_null(row: Seq<u8>, start: int, width: int, tnull: Option<Seq<char>>) -> bool {
    match tnull {
        Some(n) => 0 <= start && 0 <= width && start + width <= row.len() && row.subrange(
            start,
            start + width,
        ) == encode_utf8(n),
        None => false,
    }
}

/// The cell of a column in a row.
///
/// The field starts at byte `TBCOL - 1` of the row and has the width that
/// the form of the column gives; it must lie in the row. It is `Null` if
/// it is, byte for byte, the text that stands for no value. Else the
/// field, which must be ASCII, is read by the form of the column:
/// characters as they are; an integer or a real from the field without the
/// blanks around it. The scale and the zero point of the column have no
/// part in it.
pub open spec fn cell_of(row: Seq<u8>, col: ColumnView) -> Result<CellView, ErrorView> {
    let start = col.tbcol - 1;
    let width = col.form.spec_width() as int;
    let field = row.subrange(start, start + width);
    let text = trim(field);
    if start < 0 {
        Err(bad_cell("Invalid TBCOL value"@))
    } else if is_null(row, start, width, col.tnull) {
        Ok(CellView::Null)
    } else if start + width > row.len() {
        Err(bad_cell("Table field exceeds row"@))
    } else if !all_in(ByteClass::Ascii, field) {
        Err(bad_cell("Invalid table text"@))
    } else if col.form is Char {
        Ok(CellView::String(chars_of(field)))
    } else if col.form is Int {
        match i64_of(text) {
            Some(n) => Ok(CellView::Int(n)),
            None => Err(bad_cell("Invalid table value"@)),
        }
    } else {
        match real_of(text) {
            Some(x) => Ok(CellView::Float(x)),
            None => Err(bad_cell("Invalid table value"@)),
        }
    }
}

/// The cells of a row, or the error of the first cell that cannot be
/// decoded.
pub open spec fn row_of(row: Seq<u8>, cols: Seq<ColumnView>) -> Result<Seq<CellView>, ErrorView> {
    collect(|j: int| cell_of(row, cols[j]), cols.len() as int)
}

/// The rows of a table, or the error of the first row that cannot be
/// decoded.
pub open spec fn rows_of(data: Seq<u8>, rowbytes: int, nrows: int, cols: Seq<ColumnView>) -> Result<
    Seq<Seq<CellView>>,
    ErrorView,
> {
    collect(|r: int| row_of(data.subrange(r * rowbytes, r * rowbytes + rowbytes), cols), nrows)
}

/// What the keywords at the head of the header say of an ASCII table: the
/// width of a row, the number of rows and the number of fields.
pub open spec fn table_layout(h: Seq<KeywordView>) -> Result<(usize, usize, usize), ErrorView> {
    let bitpix = int_is(h, 1, "BITPIX"@, 8);
    let naxis = int_is(h, 2, "NAXIS"@, 2);
    let naxis1 = size_at(h, 3, "NAXIS1"@);
    let naxis2 = size_at(h, 4, "NAXIS2"@);
    let pcount = int_is(h, 5, "PCOUNT"@, 0);
    let gcount = int_is(h, 6, "GCOUNT"@, 1);
    let tfields = size_at(h, 7, "TFIELDS"@);
    if bitpix is Err {
        Err(bitpix->Err_0)
    } else if naxis is Err {
        Err(naxis->Err_0)
    } else if naxis1 is Err {
        Err(naxis1->Err_0)
    } else if naxis2 is Err {
        Err(naxis2->Err_0)
    } else if pcount is Err {
        Err(pcount->Err_0)
    } else if gcount is Err {
        Err(gcount->Err_0)
    } else if tfields is Err {
        Err(tfields->Err_0)
    } else {
        Ok((naxis1->Ok_0, naxis2->Ok_0, tfields->Ok_0))
    }
}

/// The table that a header and the bytes behind it hold, and the number of
/// bytes that the table takes.
///
/// The header is checked first, then the columns in order, then that the
/// rows are all there, and then the rows are decoded in order.
#[verifier::opaque]
pub open spec fn table_of(h: Seq<KeywordView>, data: Seq<u8>) -> Result<(TableView, usize), ErrorView> {
    match table_layout(h) {
        Err(e) => Err(e),
        Ok((rowbytes, nrows, nfields)) => match collect(|i: int| column_of(h, i), nfields as int) {
            Err(e) => Err(e),
            Ok(columns) => if data.len() < nrows * rowbytes {
                Err(ErrorView::GenericError("Table data is too short"@))
            } else {
                match rows_of(data, rowbytes as int, nrows as int, columns) {
                    Err(e) => Err(e),
                    Ok(rows) => Ok(
                        (
                            TableView { nfields, rowbytes, nrows, columns, data: rows },
                            (nrows * rowbytes) as usize,
                        ),
                    ),
                }
            },
        },
    }
}

/// Whether `r` is what decoding a table is to give: the error, or the
/// table and its size.
pub open spec fn table_decoded(
    r: Result<(HDUData, usize), FITSError>,
    expected: Result<(TableView, usize), ErrorView>,
) -> bool {
    match expected {
        Err(e) => r is Err && r->Err_0@ == e,
        Ok((t, n)) => r is Ok && r->Ok_0.0 is Table && r->Ok_0.0->Table_0@ == t && r->Ok_0.1 == n,
    }
}

fn read_wd(s: &[u8]) -> (r: Option<(usize, usize)>)
    ensures
        r == wd_of(s@),
{
    let p = find_byte(s, POINT, 0);
    if p < s.len() {
        let w = parse_usize(slice_subrange(s, 0, p));
        let d = parse_usize(slice_subrange(s, p + 1, find_byte(s, POINT, p + 1)));
        match (w, d) {
            (Some(w), Some(d)) => Some((w, d)),
            _ => None,
        }
    } else {
        None
    }
}

fn read_form(s: &[u8]) -> (r: Option<FieldForm>)
    ensures
        r == form_of_text(s@),
{
    if s.len() < 2 {
        return None;
    }
    let rest = slice_subrange(s, 1, s.len());
    let c = s[0];
    if c == UPPER_A {
        match parse_usize(rest) {
            Some(w) => Some(FieldForm::Char(w)),
            None => None,
        }
    } else if c == UPPER_I {
        match parse_usize(rest) {
            Some(w) => Some(FieldForm::Int(w)),
            None => None,
        }
    } else if c == UPPER_F || c == UPPER_E || c == UPPER_D {
        match read_wd(rest) {
            Some((w, d)) => Some(
                if c == UPPER_F {
                    FieldForm::FloatDec(w, d)
                } else if c == UPPER_E {
                    FieldForm::FloatE(w, d)
                } else {
                    FieldForm::FloatD(w, d)
                },
            ),
            None => None,
        }
    } else {
        None
    }
}

/// What reading an optional text gives, as a model.
pub open spec fn opt_text_outcome(r: Result<Option<String>, FITSError>) -> Result<
    Option<Seq<char>>,
    ErrorView,
> {
    match r {
        Ok(o) => Ok(text_view(o)),
        Err(e) => Err(e@),
    }
}

/// What reading an optional number gives, as a model.
pub open spec fn opt_real_outcome(r: Result<Option<Real>, FITSError>) -> Result<
    Option<Seq<char>>,
    ErrorView,
> {
    match r {
        Ok(o) => Ok(real_view(o)),
        Err(e) => Err(e@),
    }
}

fn read_optional_text(header: &Header, name: &str, message: &str) -> (r: Result<
    Option<String>,
    FITSError,
>)
    ensures
        opt_text_outcome(r) == optional_text(header@, name@, message@),
{
    match header.value(name) {
        None => Ok(None),
        Some(KeywordValue::String(s)) => Ok(Some(s.clone())),
        Some(_) => Err(generic(message)),
    }
}

fn read_optional_real(header: &Header, name: &str, message: &str) -> (r: Result<
    Option<Real>,
    FITSError,
>)
    ensures
        opt_real_outcome(r) == optional_real(header@, name@, message@),
{
    match header.value(name) {
        None => Ok(None),
        Some(KeywordValue::Float(x)) => Ok(Some(x.clone())),
        Some(_) => Err(generic(message)),
    }
}

fn read_column(header: &Header, i: usize) -> (r: Result<Column, FITSError>)
    requires
        i < usize::MAX,
    ensures
        outcome(r) == column_of(header@, i as int),
{
    let n = i + 1;
    let tbcol = match header.value_int(numbered_name("TBCOL", n).as_str()) {
        Some(v) => v,
        None => {
            return Err(generic("Missing or incorrect TBCOL keyword in table"));
        },
    };
    let name = match header.value_string(numbered_name("TTYPE", n).as_str()) {
        Some(v) => v,
        None => {
            return Err(generic("Missing or incorrect TTYPE keyword in table"));
        },
    };
    let tnull = match read_optional_text(
        header,
        numbered_name("TNULL", n).as_str(),
        "Invalid TNULL value",
    ) {
        Ok(v) => v,
        Err(e) => {
            return Err(e);
        },
    };
    let form = match header.find(numbered_name("TFORM", n).as_str()) {
        None => {
            return Err(generic("Missing TFORM keyword"));
        },
        Some(kw) => match Table::tform_from_keyword(kw) {
            Ok(f) => f,
            Err(e) => {
                return Err(e);
            },
        },
    };
    let tdisp = match header.find(numbered_name("TDISP", n).as_str()) {
        None => TDisp::Absent,
        Some(kw) => match TDisp::from_keyword(kw) {
            Ok(f) => f,
            Err(e) => {
                return Err(e);
            },
        },
    };
    let scale = match read_optional_real(
        header,
        numbered_name("TSCAL", n).as_str(),
        "Invalid TSCAL value",
    ) {
        Ok(v) => v,
        Err(e) => {
            return Err(e);
        },
    };
    let zero = match read_optional_real(
        header,
        numbered_name("TZERO", n).as_str(),
        "Invalid TZERO value",
    ) {
        Ok(v) => v,
        Err(e) => {
            return Err(e);
        },
    };
    let unit = match read_optional_text(
        header,
        numbered_name("TUNIT", n).as_str(),
        "Invalid TUNIT value",
    ) {
        Ok(v) => v,
        Err(e) => {
            return Err(e);
        },
    };
    let tdmin = match read_optional_real(
        header,
        numbered_name("TDMIN", n).as_str(),
        "Invalid TDMIN value",
    ) {
        Ok(v) => v,
        Err(e) => {
            return Err(e);
        },
    };
    let tdmax = match read_optional_real(
        header,
        numbered_name("TDMAX", n).as_str(),
        "Invalid TDMAX value",
    ) {
        Ok(v) => v,
        Err(e) => {
            return Err(e);
        },
    };
    let tlmin = match read_optional_real(
        header,
        numbered_name("TLMIN", n).as_str(),
        "Invalid TLMIN value",
    ) {
        Ok(v) => v,
        Err(e) => {
            return Err(e);
        },
    };
    let tlmax = match read_optional_real(
        header,
        numbered_name("TLMAX", n).as_str(),
        "Invalid TLMAX value",
    ) {
        Ok(v) => v,
        Err(e) => {
            return Err(e);
        },
    };
    Ok(Column { name, tbcol, form, tnull, tdisp, scale, zero, unit, tdmin, tdmax, tlmin, tlmax })
}

fn read_columns(header: &Header, nfields: usize) -> (r: Result<Vec<Column>, FITSError>)
    ensures
        match r {
            Ok(c) => collect(|i: int| column_of(header@, i), nfields as int) == Ok::<
                Seq<ColumnView>,
                ErrorView,
            >(columns_view(c@)),
            Err(e) => collect(|i: int| column_of(header@, i), nfields as int) == Err::<
                Seq<ColumnView>,
                ErrorView,
            >(e@),
        },
{
    let ghost h = header@;
    let ghost f = |i: int| column_of(h, i);
    let mut columns: Vec<Column> = Vec::new();
    let mut i: usize = 0;
    while i < nfields
        invariant
            i <= nfields,
            h == header@,
            f == (|i: int| column_of(h, i)),
            columns@.len() == i,
            first_bad(f, nfields as int, 0) == first_bad(f, nfields as int, i as int),
            forall|k: int| 0 <= k < i ==> f(k) == Ok::<ColumnView, ErrorView>(#[trigger] columns@[k]@),
        decreases nfields - i,
    {
        match read_column(header, i) {
            Ok(c) => {
                columns.push(c);
            },
            Err(e) => {
                return Err(e);
            },
        }
        i += 1;
    }
    proof {
        assert(columns_view(columns@) =~= collect(f, nfields as int)->Ok_0);
    }
    Ok(columns)
}

/// Whether the field of `width` bytes that starts at `start` lies in `row`
/// and is the text that stands for no value.
fn field_is_null(row: &[u8], start: usize, width: usize, tnull: &Option<String>) -> (r: bool)
    ensures
        r == is_null(row@, start as int, width as int, text_view(*tnull)),
{
    match tnull {
        Some(n) => {
            if start > row.len() || width > row.len() - start {
                false
            } else {
                bytes_eq(slice_subrange(row, start, start + width), bytes_of(n.as_str()))
            }
        },
        None => false,
    }
}

/// Decodes the cell of a column in a row.
pub fn read_cell(row: &[u8], col: &Column) -> (r: Result<TValue, FITSError>)
    ensures
        outcome(r) == cell_of(row@, col@),
{
    if col.tbcol < 1 {
        return Err(generic("Invalid TBCOL value"));
    }
    let width = col.form.width();
    let len: usize = row.len();
    if (col.tbcol - 1) as u64 > len as u64 {
        return Err(generic("Table field exceeds row"));
    }
    let start = (col.tbcol - 1) as usize;
    if field_is_null(row, start, width, &col.tnull) {
        return Ok(TValue::Null);
    }
    if width > len - start {
        return Err(generic("Table field exceeds row"));
    }
    let field = slice_subrange(row, start, start + width);
    if !bytes_in_class(ByteClass::Ascii, field) {
        return Err(generic("Invalid table text"));
    }
    match col.form {
        FieldForm::Char(_) => Ok(TValue::String(string_of(field))),
        FieldForm::Int(_) => match parse_i64(trim_bytes(field)) {
            Some(n) => Ok(TValue::Int(n)),
            None => Err(generic("Invalid table value")),
        },
        _ => match read_real(trim_bytes(field)) {
            Some(x) => Ok(TValue::Float(x)),
            None => Err(generic("Invalid table value")),
        },
    }
}

fn read_row(row: &[u8], columns: &Vec<Column>) -> (r: Result<Vec<TValue>, FITSError>)
    ensures
        match r {
            Ok(c) => row_of(row@, columns_view(columns@)) == Ok::<Seq<CellView>, ErrorView>(
                cells_view(c@),
            ),
            Err(e) => row_of(row@, columns_view(columns@)) == Err::<Seq<CellView>, ErrorView>(e@),
        },
{
    let ghost cols = columns_view(columns@);
    let ghost f = |j: int| cell_of(row@, cols[j]);
    let n = columns.len();
    let mut cells: Vec<TValue> = Vec::with_capacity(n);
    let mut j: usize = 0;
    while j < n
        invariant
            j <= n,
            n == columns@.len(),
            cols == columns_view(columns@),
            f == (|j: int| cell_of(row@, cols[j])),
            cells@.len() == j,
            first_bad(f, n as int, 0) == first_bad(f, n as int, j as int),
            forall|k: int| 0 <= k < j ==> f(k) == Ok::<CellView, ErrorView>(#[trigger] cells@[k]@),
        decreases n - j,
    {
        match read_cell(row, &columns[j]) {
            Ok(c) => {
                cells.push(c);
            },
            Err(e) => {
                return Err(e);
            },
        }
        j += 1;
    }
    proof {
        assert(cells_view(cells@) =~= collect(f, n as int)->Ok_0);
    }
    Ok(cells)
}

fn read_rows(data: &[u8], rowbytes: usize, nrows: usize, columns: &Vec<Column>) -> (r: Result<
    Vec<Vec<TValue>>,
    FITSError,
>)
    requires
        nrows * rowbytes <= data@.len(),
    ensures
        match r {
            Ok(rows) => rows_of(data@, rowbytes as int, nrows as int, columns_view(columns@))
                == Ok::<Seq<Seq<CellView>>, ErrorView>(rows_view(rows@)),
            Err(e) => rows_of(data@, rowbytes as int, nrows as int, columns_view(columns@))
                == Err::<Seq<Seq<CellView>>, ErrorView>(e@),
        },
{
    let ghost cols = columns_view(columns@);
    let ghost f = |r: int| row_of(data@.subrange(r * rowbytes, r * rowbytes + rowbytes), cols);
    let len: usize = data.len();
    let mut rows: Vec<Vec<TValue>> = Vec::new();
    let mut i: usize = 0;
    while i < nrows
        invariant
            i <= nrows,
            nrows * rowbytes <= data@.len() == len,
            cols == columns_view(columns@),
            f == (|r: int| row_of(data@.subrange(r * rowbytes, r * rowbytes + rowbytes), cols)),
            rows@.len() == i,
            first_bad(f, nrows as int, 0) == first_bad(f, nrows as int, i as int),
            forall|k: int|
                0 <= k < i ==> f(k) == Ok::<Seq<CellView>, ErrorView>(
                    cells_view((#[trigger] rows@[k])@),
                ),
        decreases nrows - i,
    {
        proof {
            assert((i + 1) * rowbytes <= nrows * rowbytes) by (nonlinear_arith)
                requires
                    i + 1 <= nrows,
                    rowbytes >= 0,
            ;
            assert((i + 1) * rowbytes == i * rowbytes + rowbytes) by (nonlinear_arith);
            assert(0 <= i * rowbytes) by (nonlinear_arith)
                requires
                    i >= 0,
                    rowbytes >= 0,
            ;
        }
        let row = slice_subrange(data, i * rowbytes, i * rowbytes + rowbytes);
        match read_row(row, columns) {
            Ok(c) => {
                rows.push(c);
            },
            Err(e) => {
                return Err(e);
            },
        }
        i += 1;
    }
    proof {
        assert(rows_view(rows@) =~= collect(f, nrows as int)->Ok_0);
    }
    Ok(rows)
}

fn read_table_layout(header: &Header) -> (r: Result<(usize, usize, usize), FITSError>)
    ensures
        outcome(r) == table_layout(header@),
{
    match check_int_keyword_at_index(header, 1, "BITPIX", 8) {
        Ok(_) => {},
        Err(e) => {
            return Err(e);
        },
    }
    match check_int_keyword_at_index(header, 2, "NAXIS", 2) {
        Ok(_) => {},
        Err(e) => {
            return Err(e);
        },
    }
    let rowbytes = match get_keyword_size_at_index(header, 3, "NAXIS1") {
        Ok(n) => n,
        Err(e) => {
            return Err(e);
        },
    };
    let nrows = match get_keyword_size_at_index(header, 4, "NAXIS2") {
        Ok(n) => n,
        Err(e) => {
            return Err(e);
        },
    };
    match check_int_keyword_at_index(header, 5, "PCOUNT", 0) {
        Ok(_) => {},
        Err(e) => {
            return Err(e);
        },
    }
    match check_int_keyword_at_index(header, 6, "GCOUNT", 1) {
        Ok(_) => {},
        Err(e) => {
            return Err(e);
        },
    }
    let nfields = match get_keyword_size_at_index(header, 7, "TFIELDS") {
        Ok(n) => n,
        Err(e) => {
            return Err(e);
        },
    };
    Ok((rowbytes, nrows, nfields))
}

impl Table {
    /// Reads the form of a column from its `TFORM` keyword.
    pub fn tform_from_keyword(kw: &Keyword) -> (r: Result<FieldForm, FITSError>)
        ensures
            outcome(r) == form_of(kw@.value),
    {
        match &kw.value {
            KeywordValue::String(value) => match read_form(bytes_of(value.as_str())) {
                Some(f) => Ok(f),
                None => Err(generic("Invalid TFORM value")),
            },
            _ => Err(generic("Invalid TFORM value")),
        }
    }

    /// Decodes the ASCII table that a header announces from the bytes that
    /// follow the header. Gives the table and the number of bytes that it
    /// takes.
    pub fn from_bytes(header: &Header, rawbytes: &[u8]) -> (r: Result<(HDUData, usize), FITSError>)
        ensures
            table_decoded(r, table_of(header@, rawbytes@)),
            r is Ok ==> r->Ok_0.1 <= rawbytes@.len(),
    {
        reveal(table_of);
        let (rowbytes, nrows, nfields) = match read_table_layout(header) {
            Ok(l) => l,
            Err(e) => {
                return Err(e);
            },
        };
        let columns = match read_columns(header, nfields) {
            Ok(c) => c,
            Err(e) => {
                return Err(e);
            },
        };
        let len: usize = rawbytes.len();
        let nbytes = match nrows.checked_mul(rowbytes) {
            Some(n) => n,
            None => {
                return Err(generic("Table data is too short"));
            },
        };
        if len < nbytes {
            return Err(generic("Table data is too short"));
        }
        let data = match read_rows(rawbytes, rowbytes, nrows, &columns) {
            Ok(d) => d,
            Err(e) => {
                return Err(e);
            },
        };
        let table = Table { nfields, rowbytes, nrows, columns, data };
        Ok((HDUData::Table(Box::new(table)), nbytes))
    }
}

/// The name of the keyword required at a position from 1 to 7 of the
/// header of a table.
pub open spec fn table_name_at(k: int) -> Seq<char> {
    if k == 1 {
        "BITPIX"@
    } else if k == 2 {
        "NAXIS"@
    } else if k == 3 {
        "NAXIS1"@
    } else if k == 4 {
        "NAXIS2"@
    } else if k == 5 {
        "PCOUNT"@
    } else if k == 6 {
        "GCOUNT"@
    } else {
        "TFIELDS"@
    }
}

/// A table is decoded only from a header whose positions 1 to 7 hold the
/// required keywords in their order.
pub proof fn lemma_table_needs_positions(h: Seq<KeywordView>, data: Seq<u8>)
    requires
        table_of(h, data) is Ok,
    ensures
        forall|k: int| 1 <= k <= 7 ==> in_place(h, k, #[trigger] table_name_at(k)),
{
    reveal(table_of);
    assert(table_layout(h) is Ok);
    assert forall|k: int| 1 <= k <= 7 implies in_place(h, k, #[trigger] table_name_at(k)) by {
        crate::utils::lemma_not_in_place(h, k, table_name_at(k), 0);
        crate::utils::lemma_not_in_place(h, k, table_name_at(k), 1);
        crate::utils::lemma_not_in_place(h, k, table_name_at(k), 2);
        crate::utils::lemma_not_in_place(h, k, table_name_at(k), 8);
    }
}

/// Where the first of the positions 1 to 7 that does not hold its required
/// keyword is position `k`, and the keywords before it are those of a
/// header from which a table can be decoded, decoding fails, and reports
/// the keyword of position `k` as missing or as misplaced. This is what
/// comes of taking out or of exchanging required keywords of a valid
/// header.
pub proof fn lemma_table_positions_are_checked(
    valid: Seq<KeywordView>,
    h: Seq<KeywordView>,
    k: int,
    data: Seq<u8>,
)
    requires
        table_layout(valid) is Ok,
        1 <= k <= 7,
        forall|j: int| 0 <= j < k ==> j < h.len() && h[j] == valid[j],
        !in_place(h, k, table_name_at(k)),
    ensures
        table_of(h, data) == Err::<(TableView, usize), ErrorView>(
            not_in_place(h, k, table_name_at(k)),
        ),
{
    reveal(table_of);
    assert(valid.len() > 7);
    assert forall|j: int| 1 <= j < k implies h[j] == valid[j] by {}
    assert(h[0] == valid[0]);
}

/// A field that holds exactly the text that stands for no value in its
/// column is `Null`, whatever else the field could be read as.
pub proof fn lemma_null_text_is_null(row: Seq<u8>, col: ColumnView)
    requires
        col.tnull is Some,
        1 <= col.tbcol,
        col.tbcol - 1 + col.form.spec_width() <= row.len(),
        row.subrange(col.tbcol - 1, col.tbcol - 1 + col.form.spec_width()) == encode_utf8(
            col.tnull->Some_0,
        ),
    ensures
        cell_of(row, col) == Ok::<CellView, ErrorView>(CellView::Null),
{
}

/// Only a field that holds exactly the text that stands for no value in
/// its column is `Null`: a field that is longer or shorter than that text,
/// or differs from it in a byte, is read as what it writes.
pub proof fn lemma_null_is_null_text(row: Seq<u8>, col: ColumnView)
    requires
        cell_of(row, col) == Ok::<CellView, ErrorView>(CellView::Null),
    ensures
        col.tnull is Some,
        1 <= col.tbcol,
        col.tbcol - 1 + col.form.spec_width() <= row.len(),
        row.subrange(col.tbcol - 1, col.tbcol - 1 + col.form.spec_width()) == encode_utf8(
            col.tnull->Some_0,
        ),
        encode_utf8(col.tnull->Some_0).len() == col.form.spec_width(),
{
}

/// The number of a cell is the text of a floating-point number.
pub proof fn lemma_cell_number_is_float_text(row: Seq<u8>, col: ColumnView)
    requires
        cell_of(row, col) is Ok,
        cell_of(row, col)->Ok_0 is Float,
    ensures
        crate::text::is_float_text(encode_utf8(cell_of(row, col)->Ok_0->Float_0)),
{
    let start = col.tbcol - 1;
    let field = row.subrange(start, start + col.form.spec_width());
    crate::keyword::lemma_trim_keeps_class(ByteClass::Ascii, field);
    crate::keyword::lemma_real_is_float_text(trim(field));
}

/// Whether two columns have their fields at the same place, of the same
/// form and with the same text for no value. They may differ in all else:
/// name, scale, zero point, unit, display format and limits.
pub open spec fn same_fields(a: ColumnView, b: ColumnView) -> bool {
    a.form == b.form && a.tbcol == b.tbcol && a.tnull == b.tnull
}

/// The cell of a column does not depend on the scale and the zero point of
/// the column, whatever its form: with a scale of 1 and a zero point of 0
/// it is the cell of the column without them.
pub proof fn lemma_cell_ignores_scale(row: Seq<u8>, a: ColumnView, b: ColumnView)
    requires
        same_fields(a, b),
    ensures
        cell_of(row, a) == cell_of(row, b),
{
}

/// The rows of a table do not depend on the scales and the zero points of
/// its columns: they are decoded alike, cell by cell, and fail alike.
pub proof fn lemma_rows_ignore_scale(
    data: Seq<u8>,
    rowbytes: int,
    nrows: int,
    a: Seq<ColumnView>,
    b: Seq<ColumnView>,
)
    requires
        0 <= nrows,
        a.len() == b.len(),
        forall|j: int| 0 <= j < a.len() ==> same_fields(#[trigger] a[j], b[j]),
    ensures
        rows_of(data, rowbytes, nrows, a) == rows_of(data, rowbytes, nrows, b),
{
    let f = |r: int| row_of(data.subrange(r * rowbytes, r * rowbytes + rowbytes), a);
    let g = |r: int| row_of(data.subrange(r * rowbytes, r * rowbytes + rowbytes), b);
    assert forall|r: int| 0 <= r < nrows implies #[trigger] f(r) == g(r) by {
        let row = data.subrange(r * rowbytes, r * rowbytes + rowbytes);
        let fa = |j: int| cell_of(row, a[j]);
        let fb = |j: int| cell_of(row, b[j]);
        assert forall|j: int| 0 <= j < a.len() implies #[trigger] fa(j) == fb(j) by {
            assert(same_fields(a[j], b[j]));
        }
        lemma_collect_agrees(fa, fb, a.len() as int);
    }
    lemma_collect_agrees(f, g, nrows);
}

/// The columns that a header gives, where its first keywords are as
/// required.
pub open spec fn columns_of(h: Seq<KeywordView>) -> Result<Seq<ColumnView>, ErrorView> {
    collect(|i: int| column_of(h, i), table_layout(h)->Ok_0.2 as int)
}

/// Two headers that say the same of a table but for the scales and the zero
/// points of its columns give the same rows from the same bytes, and take
/// the same number of bytes; and where the bytes do not decode under one,
/// they fail alike under the other.
pub proof fn lemma_table_ignores_scale(a: Seq<KeywordView>, b: Seq<KeywordView>, data: Seq<u8>)
    requires
        table_layout(a) is Ok,
        table_layout(a) == table_layout(b),
        columns_of(a) is Ok,
        columns_of(b) is Ok,
        forall|j: int|
            0 <= j < columns_of(a)->Ok_0.len() ==> same_fields(
                #[trigger] columns_of(a)->Ok_0[j],
                columns_of(b)->Ok_0[j],
            ),
    ensures
        match table_of(a, data) {
            Ok((t, n)) => table_of(b, data) is Ok && table_of(b, data)->Ok_0.0.data == t.data
                && table_of(b, data)->Ok_0.1 == n,
            Err(e) => table_of(b, data) == Err::<(TableView, usize), ErrorView>(e),
        },
{
    reveal(table_of);
    let (rowbytes, nrows, nfields) = table_layout(a)->Ok_0;
    lemma_rows_ignore_scale(
        data,
        rowbytes as int,
        nrows as int,
        columns_of(a)->Ok_0,
        columns_of(b)->Ok_0,
    );
}

} // verus!
