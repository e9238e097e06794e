//! Display formats of table columns, as `TDISP` keywords write them.

use crate::errors::{ErrorView, FITSError, generic, outcome};
use crate::keyword::{Keyword, KeywordValue, ValueView};
use crate::strings::bytes_of;
use crate::text::{
    POINT, UPPER_A, UPPER_B, UPPER_D, UPPER_E, UPPER_F, UPPER_G, UPPER_I, UPPER_L, UPPER_N, UPPER_O,
    UPPER_S, UPPER_Z, find_byte, find_from, parse_usize, usize_of,
};
use vstd::prelude::*;
use vstd::slice::slice_subrange;
use vstd::utf8::encode_utf8;

verus! {

/// How the values of a column are to be shown.
#[derive(Debug, Clone, Copy, PartialEq, Eq, Structural)]
pub enum TDisp {
    /// The column has no display format.
    Absent,
    /// Characters, with the width.
    Char(usize),
    /// Truth values, with the width.
    Logical(usize),
    /// Decimal integers, with the width and the least number of digits.
    Int(usize, usize),
    /// Binary integers, with the width and the least number of digits.
    Bin(usize, usize),
    /// Octal integers, with the width and the least number of digits.
    Oct(usize, usize),
    /// Hexadecimal integers, with the width and the least number of digits.
    Hex(usize, usize),
    /// Numbers in fixed-point form, with the width and the number of digits
    /// behind the point.
    Float(usize, usize),
    /// Numbers in general form, with the width, the number of significant
    /// digits and the number of digits of the exponent.
    FloatGen(usize, usize, usize),
    /// Numbers with an exponent, with the width, the number of digits behind
    /// the point and the number of digits of the exponent.
    FloatExp(usize, usize, usize),
}

impl View for TDisp {
    type V = TDisp;

    open spec fn view(&self) -> TDisp {
        *self
    }
}

/// What every malformed display format is reported as.
pub open spec fn bad_tdisp() -> ErrorView {
    ErrorView::GenericError("Invalid TDISP value"@)
}

/// A width and a second number, written as `w` or `w.m`. The second number
/// is 0 where the text has no point; what follows a second point is not
/// read.
pub open spec fn wm_of(s: Seq<u8>) -> Option<(usize, usize)> {
    let p = find_from(s, POINT, 0);
    let w = usize_of(s.subrange(0, p));
    let m = if p < s.len() {
        usize_of(s.subrange(p + 1, find_from(s, POINT, p + 1)))
    } else {
        Some(0usize)
    };
    match (w, m) {
        (Some(w), Some(m)) => Some((w, m)),
        _ => None,
    }
}

/// A number of digits and an exponent width, written as `d` or `dEe`. The
/// exponent width is 0 where the text has no `E`; what follows a second `E`
/// is not read.
pub open spec fn de_of(s: Seq<u8>) -> Option<(usize, usize)> {
    let x = find_from(s, UPPER_E, 0);
    let d = usize_of(s.subrange(0, x));
    let e = if x < s.len() {
        usize_of(s.subrange(x + 1, find_from(s, UPPER_E, x + 1)))
    } else {
        Some(0usize)
    };
    match (d, e) {
        (Some(d), Some(e)) => Some((d, e)),
        _ => None,
    }
}

/// A width, a number of digits and an exponent width, written as `w`,
/// `w.d` or `w.dEe`. What the text leaves out is 0.
pub open spec fn wde_of(s: Seq<u8>) -> Option<(usize, usize, usize)> {
    let p = find_from(s, POINT, 0);
    let w = usize_of(s.subrange(0, p));
    let de = if p < s.len() {
        de_of(s.subrange(p + 1, find_from(s, POINT, p + 1)))
    } else {
        Some((0usize, 0usize))
    };
    match (w, de) {
        (Some(w), Some((d, e))) => Some((w, d, e)),
        _ => None,
    }
}

/// The display format that the text `s` writes: a letter for the kind, then
/// its numbers. `EN` and `ES` are the exponent form with three digits of
/// exponent.
pub open spec fn tdisp_of_text(s: Seq<u8>) -> Option<TDisp> {
    if s.len() == 0 {
        None
    } else {
        let rest = s.skip(1);
        let c = s[0];
        if c == UPPER_A {
            match usize_of(rest) {
                Some(w) => Some(TDisp::Char(w)),
                None => None,
            }
        } else if c == UPPER_L {
            match usize_of(rest) {
                Some(w) => Some(TDisp::Logical(w)),
                None => None,
            }
        } else if c == UPPER_I || c == UPPER_B || c == UPPER_O || c == UPPER_Z || c == UPPER_F {
            match wm_of(rest) {
                Some((w, m)) => Some(
                    if c == UPPER_I {
                        TDisp::Int(w, m)
                    } else if c == UPPER_B {
                        TDisp::Bin(w, m)
                    } else if c == UPPER_O {
                        TDisp::Oct(w, m)
                    } else if c == UPPER_Z {
                        TDisp::Hex(w, m)
                    } else {
                        TDisp::Float(w, m)
                    },
                ),
                None => None,
            }
        } else if c == UPPER_G {
            match wde_of(rest) {
                Some((w, d, e)) => Some(TDisp::FloatGen(w, d, e)),
                None => None,
            }
        } else if c == UPPER_E && rest.len() > 0 && (rest[0] == UPPER_N || rest[0] == UPPER_S) {
            match wm_of(rest.skip(1)) {
                Some((w, d)) => Some(TDisp::FloatExp(w, d, 3)),
                None => None,
            }
        } else if c == UPPER_D || c == UPPER_E {
            match wde_of(rest) {
                Some((w, d, e)) => Some(TDisp::FloatExp(w, d, e)),
                None => None,
            }
        } else {
            None
        }
    }
}

/// The display format that a keyword value writes. Only a string writes
/// one.
pub open spec fn tdisp_of(value: ValueView) -> Result<TDisp, ErrorView> {
    match value {
        ValueView::String(s) => match tdisp_of_text(encode_utf8(s)) {
            Some(t) => Ok(t),
            None => Err(bad_tdisp()),
        },
        _ => Err(bad_tdisp()),
    }
}

fn read_wm(s: &[u8]) -> (r: Option<(usize, usize)>)
    ensures
        r == wm_of(s@),
{
    let p = find_byte(s, POINT, 0);
    let w = parse_usize(slice_subrange(s, 0, p));
    let m = if p < s.len() {
        parse_usize(slice_subrange(s, p + 1, find_byte(s, POINT, p + 1)))
    } else {
        Some(0usize)
    };
    match (w, m) {
        (Some(w), Some(m)) => Some((w, m)),
        _ => None,
    }
}

fn read_de(s: &[u8]) -> (r: Option<(usize, usize)>)
    ensures
        r == de_of(s@),
{
    let x = find_byte(s, UPPER_E, 0);
    let d = parse_usize(slice_subrange(s, 0, x));
    let e = if x < s.len() {
        parse_usize(slice_subrange(s, x + 1, find_byte(s, UPPER_E, x + 1)))
    } else {
        Some(0usize)
    };
    match (d, e) {
        (Some(d), Some(e)) => Some((d, e)),
        _ => None,
    }
}

fn read_wde(s: &[u8]) -> (r: Option<(usize, usize, usize)>)
    ensures
        r == wde_of(s@),
{
    let p = find_byte(s, POINT, 0);
    let w = parse_usize(slice_subrange(s, 0, p));
    let de = if p < s.len() {
        read_de(slice_subrange(s, p + 1, find_byte(s, POINT, p + 1)))
    } else {
        Some((0usize, 0usize))
    };
    match (w, de) {
        (Some(w), Some((d, e))) => Some((w, d, e)),
        _ => None,
    }
}

/// Reads a width and a second number, written as `w` or `w.m`.
pub fn wmfromstr(s: &str) -> (r: Result<(usize, usize), FITSError>)
    ensures
        outcome(r) == (match wm_of(encode_utf8(s@)) {
            Some(p) => Ok(p),
            None => Err(bad_tdisp()),
        }),
{
    match read_wm(bytes_of(s)) {
        Some(p) => Ok(p),
        None => Err(generic("Invalid TDISP value")),
    }
}

/// Reads a width, a number of digits and an exponent width, written as
/// `w`, `w.d` or `w.dEe`.
pub fn wdefromstr(s: &str) -> (r: Result<(usize, usize, usize), FITSError>)
    ensures
        outcome(r) == (match wde_of(encode_utf8(s@)) {
            Some(p) => Ok(p),
            None => Err(bad_tdisp()),
        }),
{
    match read_wde(bytes_of(s)) {
        Some(p) => Ok(p),
        None => Err(generic("Invalid TDISP value")),
    }
}

fn read_tdisp(s: &[u8]) -> (r: Option<TDisp>)
    ensures
        r == tdisp_of_text(s@),
{
    if s.len() == 0 {
        return None;
    }
    let rest = slice_subrange(s, 1, s.len());
    let c = s[0];
    if c == UPPER_A {
        match parse_usize(rest) {
            Some(w) => Some(TDisp::Char(w)),
            None => None,
        }
    } else if c == UPPER_L {
        match parse_usize(rest) {
            Some(w) => Some(TDisp::Logical(w)),
            None => None,
        }
    } else if c == UPPER_I || c == UPPER_B || c == UPPER_O || c == UPPER_Z || c == UPPER_F {
        match read_wm(rest) {
            Some((w, m)) => Some(
                if c == UPPER_I {
                    TDisp::Int(w, m)
                } else if c == UPPER_B {
                    TDisp::Bin(w, m)
                } else if c == UPPER_O {
                    TDisp::Oct(w, m)
                } else if c == UPPER_Z {
                    TDisp::Hex(w, m)
                } else {
                    TDisp::Float(w, m)
                },
            ),
            None => None,
        }
    } else if c == UPPER_G {
        match read_wde(rest) {
            Some((w, d, e)) => Some(TDisp::FloatGen(w, d, e)),
            None => None,
        }
    } else if c == UPPER_E && rest.len() > 0 && (rest[0] == UPPER_N || rest[0] == UPPER_S) {
        match read_wm(slice_subrange(rest, 1, rest.len())) {
            Some((w, d)) => Some(TDisp::FloatExp(w, d, 3)),
            None => None,
        }
    } else if c == UPPER_D || c == UPPER_E {
        match read_wde(rest) {
            Some((w, d, e)) => Some(TDisp::FloatExp(w, d, e)),
            None => None,
        }
    } else {
        None
    }
}

impl TDisp {
    /// Reads the display format that a `TDISP` keyword holds.
    pub fn from_keyword(kw: &Keyword) -> (r: Result<TDisp, FITSError>)
        ensures
            outcome(r) == tdisp_of(kw@.value),
    {
        match &kw.value {
            KeywordValue::String(value) => match read_tdisp(bytes_of(value.as_str())) {
                Some(t) => Ok(t),
                None => Err(generic("Invalid TDISP value")),
            },
            _ => Err(generic("Invalid TDISP value")),
        }
    }
}

} // verus!
