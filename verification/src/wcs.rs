//! World-coordinate keywords, collected from a header.
//!
//! Nothing is computed here: the numbers are kept as the header writes
//! them.

use crate::errors::{ErrorView, FITSError};
use crate::header::{Header, value_of};
use crate::keyword::{KeywordValue, KeywordView, ValueView};
use crate::strings::{numbered, numbered_name, numbered_pair, numbered_pair_name};
use crate::types::Real;
use vstd::prelude::*;

verus! {

/// A square matrix of numbers, by rows.
#[derive(Debug, PartialEq, Clone)]
pub struct Matrix {
    pub rows: Vec<Vec<Real>>,
}

impl View for Matrix {
    type V = Seq<Seq<Seq<char>>>;

    open spec fn view(&self) -> Seq<Seq<Seq<char>>> {
        Seq::new(self.rows@.len(), |i: int| reals_view(self.rows@[i]@))
    }
}

/// The texts of a list of numbers.
pub open spec fn reals_view(v: Seq<Real>) -> Seq<Seq<char>> {
    Seq::new(v.len(), |i: int| v[i]@)
}

/// The texts of a list of strings.
pub open spec fn strings_view(v: Seq<String>) -> Seq<Seq<char>> {
    Seq::new(v.len(), |i: int| v[i]@)
}

/// World-coordinate keywords of an image.
#[derive(Debug, PartialEq, Clone)]
pub struct WCS {
    pub wcaxes: Option<usize>,
    pub ctype: Option<Vec<String>>,
    pub crval: Option<Vec<Real>>,
    pub crpix: Option<Vec<Real>>,
    pub cdelt: Option<Vec<Real>>,
    pub cunit: Option<Vec<String>>,
    pub cd: Option<Matrix>,
    pub pc: Option<Matrix>,
}

/// The model of a `WCS`.
pub struct WcsView {
    pub wcaxes: Option<usize>,
    pub ctype: Option<Seq<Seq<char>>>,
    pub crval: Option<Seq<Seq<char>>>,
    pub crpix: Option<Seq<Seq<char>>>,
    pub cdelt: Option<Seq<Seq<char>>>,
    pub cunit: Option<Seq<Seq<char>>>,
    pub cd: Option<Seq<Seq<Seq<char>>>>,
    pub pc: Option<Seq<Seq<Seq<char>>>>,
}

/// The texts of an optional list of strings.
pub open spec fn opt_strings_view(o: Option<Vec<String>>) -> Option<Seq<Seq<char>>> {
    match o {
        Some(v) => Some(strings_view(v@)),
        None => None,
    }
}

/// The texts of an optional list of numbers.
pub open spec fn opt_reals_view(o: Option<Vec<Real>>) -> Option<Seq<Seq<char>>> {
    match o {
        Some(v) => Some(reals_view(v@)),
        None => None,
    }
}

/// The model of an optional matrix.
pub open spec fn opt_matrix_view(o: Option<Matrix>) -> Option<Seq<Seq<Seq<char>>>> {
    match o {
        Some(m) => Some(m@),
        None => None,
    }
}

impl View for WCS {
    type V = WcsView;

    open spec fn view(&self) -> WcsView {
        WcsView {
            wcaxes: self.wcaxes,
            ctype: opt_strings_view(self.ctype),
            crval: opt_reals_view(self.crval),
            crpix: opt_reals_view(self.crpix),
            cdelt: opt_reals_view(self.cdelt),
            cunit: opt_strings_view(self.cunit),
            cd: opt_matrix_view(self.cd),
            pc: opt_matrix_view(self.pc),
        }
    }
}

/// Whether a value is a string (`text`) or a real (not `text`).
pub open spec fn has_kind(v: Option<ValueView>, text: bool) -> bool {
    match v {
        Some(ValueView::String(_)) => text,
        Some(ValueView::Float(_)) => !text,
        _ => false,
    }
}

/// The text of a string or of a real.
pub open spec fn payload(v: Option<ValueView>) -> Seq<char> {
    match v {
        Some(ValueView::String(s)) => s,
        Some(ValueView::Float(x)) => x,
        _ => Seq::empty(),
    }
}

/// How many of the keywords `prefix1`, `prefix2`, ... the header holds in
/// an unbroken run with values of the kind, counted from `n` and at most
/// as many as the header has keywords.
pub open spec fn run_len(h: Seq<KeywordView>, prefix: Seq<char>, text: bool, n: nat) -> nat
    decreases h.len() - n,
{
    if n < h.len() && has_kind(value_of(h, numbered(prefix, n + 1)), text) {
        run_len(h, prefix, text, n + 1)
    } else {
        n
    }
}

/// The values of the keywords `prefix1`, `prefix2`, ... as far as the run
/// goes; nothing where it is empty.
pub open spec fn run_of(h: Seq<KeywordView>, prefix: Seq<char>, text: bool) -> Option<
    Seq<Seq<char>>,
> {
    let n = run_len(h, prefix, text, 0);
    if n == 0 {
        None
    } else {
        Some(Seq::new(n, |k: int| payload(value_of(h, numbered(prefix, (k + 1) as nat)))))
    }
}

/// Whether the header gives the entry of a matrix in row `i` and column
/// `j`, both counted from 0.
pub open spec fn given(h: Seq<KeywordView>, prefix: Seq<char>, i: int, j: int) -> bool {
    value_of(h, numbered_pair(prefix, (i + 1) as nat, (j + 1) as nat)) is Some && value_of(
        h,
        numbered_pair(prefix, (i + 1) as nat, (j + 1) as nat),
    )->Some_0 is Float
}

/// The entry of a matrix in row `i` and column `j`: what the header gives,
/// and else that of the identity matrix.
pub open spec fn entry(h: Seq<KeywordView>, prefix: Seq<char>, i: int, j: int) -> Seq<char> {
    if given(h, prefix, i, j) {
        payload(value_of(h, numbered_pair(prefix, (i + 1) as nat, (j + 1) as nat)))
    } else if i == j {
        "1"@
    } else {
        "0"@
    }
}

/// Whether the header gives an entry in the first `i` rows of a matrix of
/// `n` columns, or in the first `j` columns of row `i`.
pub open spec fn any_given(h: Seq<KeywordView>, prefix: Seq<char>, n: int, i: int, j: int) -> bool {
    exists|a: int, b: int|
        0 <= a && 0 <= b < n && (a < i || (a == i && b < j)) && #[trigger] given(h, prefix, a, b)
}

/// The matrix of `n` rows and columns whose entries are named by `prefix`,
/// if the header gives one of them.
pub open spec fn matrix_of(h: Seq<KeywordView>, prefix: Seq<char>, n: int) -> Option<
    Seq<Seq<Seq<char>>>,
> {
    if any_given(h, prefix, n, n, 0) {
        Some(Seq::new(n as nat, |i: int| Seq::new(n as nat, |j: int| entry(h, prefix, i, j))))
    } else {
        None
    }
}

/// The size of the matrices: the number of reference pixels.
pub open spec fn matrix_size(h: Seq<KeywordView>) -> int {
    run_len(h, "CRPIX"@, false, 0) as int
}

/// The number of axes that `WCSAXES` gives.
pub open spec fn wcaxes_of(h: Seq<KeywordView>) -> Result<Option<usize>, ErrorView> {
    match value_of(h, "WCSAXES"@) {
        None => Ok(None),
        Some(ValueView::Int(n)) => if 0 <= n <= usize::MAX {
            Ok(Some(n as usize))
        } else {
            Err(ErrorView::UnexpectedKeywordValue("WCSAXES"@, ValueView::Int(n)))
        },
        Some(_) => Err(ErrorView::UnexpectedValueType("WCSAXES"@)),
    }
}

/// The world-coordinate keywords of a header; nothing where the header
/// holds none but `WCSAXES`.
pub open spec fn wcs_of(h: Seq<KeywordView>) -> Result<Option<WcsView>, ErrorView> {
    match wcaxes_of(h) {
        Err(e) => Err(e),
        Ok(wcaxes) => {
            let w = WcsView {
                wcaxes,
                ctype: run_of(h, "CTYPE"@, true),
                crval: run_of(h, "CRVAL"@, false),
                crpix: run_of(h, "CRPIX"@, false),
                cdelt: run_of(h, "CDELT"@, false),
                cunit: run_of(h, "CUNIT"@, true),
                cd: matrix_of(h, "CD"@, matrix_size(h)),
                pc: matrix_of(h, "PC"@, matrix_size(h)),
            };
            if w.ctype is None && w.crval is None && w.crpix is None && w.cdelt is None
                && w.cunit is None && w.cd is None && w.pc is None {
                Ok(None)
            } else {
                Ok(Some(w))
            }
        },
    }
}

/// What collecting gives, as a model.
pub open spec fn wcs_outcome(r: Result<Option<WCS>, FITSError>) -> Result<Option<WcsView>, ErrorView> {
    match r {
        Ok(Some(w)) => Ok(Some(w@)),
        Ok(None) => Ok(None),
        Err(e) => Err(e@),
    }
}

fn collect_strings(header: &Header, prefix: &str) -> (r: Option<Vec<String>>)
    ensures
        opt_strings_view(r) == run_of(header@, prefix@, true),
{
    let mut out: Vec<String> = Vec::new();
    let mut n: usize = 0;
    while n < header.len()
        invariant
            n <= header@.len(),
            out@.len() == n,
            run_len(header@, prefix@, true, 0) == run_len(header@, prefix@, true, n as nat),
            forall|k: int|
                0 <= k < n ==> (#[trigger] out@[k])@ == payload(
                    value_of(header@, numbered(prefix@, (k + 1) as nat)),
                ),
        ensures
            n == run_len(header@, prefix@, true, 0),
        decreases header@.len() - n,
    {
        let name = numbered_name(prefix, n + 1);
        match header.value(name.as_str()) {
            Some(KeywordValue::String(s)) => {
                out.push(s.clone());
            },
            _ => {
                break ;
            },
        }
        n += 1;
    }
    if n == 0 {
        None
    } else {
        assert(strings_view(out@) =~= run_of(header@, prefix@, true)->Some_0);
        Some(out)
    }
}

fn collect_reals(header: &Header, prefix: &str) -> (r: Option<Vec<Real>>)
    ensures
        opt_reals_view(r) == run_of(header@, prefix@, false),
        match r {
            Some(v) => v@.len() == run_len(header@, prefix@, false, 0),
            None => run_len(header@, prefix@, false, 0) == 0,
        },
{
    let mut out: Vec<Real> = Vec::new();
    let mut n: usize = 0;
    while n < header.len()
        invariant
            n <= header@.len(),
            out@.len() == n,
            run_len(header@, prefix@, false, 0) == run_len(header@, prefix@, false, n as nat),
            forall|k: int|
                0 <= k < n ==> (#[trigger] out@[k])@ == payload(
                    value_of(header@, numbered(prefix@, (k + 1) as nat)),
                ),
        ensures
            n == run_len(header@, prefix@, false, 0),
        decreases header@.len() - n,
    {
        let name = numbered_name(prefix, n + 1);
        match header.value(name.as_str()) {
            Some(KeywordValue::Float(x)) => {
                out.push(x.clone());
            },
            _ => {
                break ;
            },
        }
        n += 1;
    }
    if n == 0 {
        None
    } else {
        assert(reals_view(out@) =~= run_of(header@, prefix@, false)->Some_0);
        Some(out)
    }
}

fn collect_matrix(header: &Header, prefix: &str, n: usize) -> (r: Option<Matrix>)
    ensures
        opt_matrix_view(r) == matrix_of(header@, prefix@, n as int),
{
    let ghost h = header@;
    let ghost p = prefix@;
    let mut rows: Vec<Vec<Real>> = Vec::new();
    let mut any = false;
    let mut i: usize = 0;
    while i < n
        invariant
            i <= n,
            h == header@,
            p == prefix@,
            rows@.len() == i,
            any == any_given(h, p, n as int, i as int, 0),
            forall|a: int|
                0 <= a < i ==> reals_view((#[trigger] rows@[a])@) == Seq::new(
                    n as nat,
                    |b: int| entry(h, p, a, b),
                ),
        decreases n - i,
    {
        let mut row: Vec<Real> = Vec::new();
        let mut j: usize = 0;
        while j < n
            invariant
                i < n,
                j <= n,
                h == header@,
                p == prefix@,
                row@.len() == j,
                any == any_given(h, p, n as int, i as int, j as int),
                forall|b: int| 0 <= b < j ==> (#[trigger] row@[b])@ == entry(h, p, i as int, b),
            decreases n - j,
        {
            let name = numbered_pair_name(prefix, i + 1, j + 1);
            let ghost before = any;
            match header.value(name.as_str()) {
                Some(KeywordValue::Float(x)) => {
                    row.push(x.clone());
                    any = true;
                    assert(given(h, p, i as int, j as int));
                },
                _ => {
                    row.push(
                        Real {
                            text: if i == j {
                                "1".to_owned()
                            } else {
                                "0".to_owned()
                            },
                        },
                    );
                    assert(!given(h, p, i as int, j as int));
                },
            }
            proof {
                if any_given(h, p, n as int, i as int, j + 1) {
                    let (a, b) = choose|a: int, b: int|
                        0 <= a && 0 <= b < n && (a < i || (a == i && b < j + 1)) && #[trigger] given(
                            h,
                            p,
                            a,
                            b,
                        );
                    if !(a == i && b == j) {
                        assert(any_given(h, p, n as int, i as int, j as int));
                    }
                }
                if before {
                    let (a, b) = choose|a: int, b: int|
                        0 <= a && 0 <= b < n && (a < i || (a == i && b < j)) && #[trigger] given(
                            h,
                            p,
                            a,
                            b,
                        );
                    assert(any_given(h, p, n as int, i as int, j + 1));
                }
            }
            j += 1;
        }
        proof {
            assert(reals_view(row@) =~= Seq::new(n as nat, |b: int| entry(h, p, i as int, b)));
            if any_given(h, p, n as int, i as int, n as int) {
                let (a, b) = choose|a: int, b: int|
                    0 <= a && 0 <= b < n && (a < i || (a == i && b < n)) && #[trigger] given(
                        h,
                        p,
                        a,
                        b,
                    );
                assert(any_given(h, p, n as int, i + 1, 0));
            }
            if any_given(h, p, n as int, i + 1, 0) {
                let (a, b) = choose|a: int, b: int|
                    0 <= a && 0 <= b < n && (a < i + 1 || (a == i + 1 && b < 0)) && #[trigger] given(
                        h,
                        p,
                        a,
                        b,
                    );
                assert(any_given(h, p, n as int, i as int, n as int));
            }
        }
        rows.push(row);
        i += 1;
    }
    if any {
        let m = Matrix { rows };
        assert(m@ =~= matrix_of(h, p, n as int)->Some_0);
        Some(m)
    } else {
        None
    }
}

impl WCS {
    /// Collects the world-coordinate keywords of a header.
    pub fn from_header(header: &Header) -> (r: Result<Option<Self>, FITSError>)
        ensures
            wcs_outcome(r) == wcs_of(header@),
    {
        let wcaxes = match header.value("WCSAXES") {
            None => None,
            Some(KeywordValue::Int(n)) => {
                if *n < 0 || *n as u64 > usize::MAX as u64 {
                    return Err(
                        FITSError::UnexpectedKeywordValue(
                            "WCSAXES".to_owned(),
                            KeywordValue::Int(*n),
                        ),
                    );
                }
                Some(*n as usize)
            },
            Some(_) => {
                return Err(FITSError::UnexpectedValueType("WCSAXES".to_owned()));
            },
        };
        let cunit = collect_strings(header, "CUNIT");
        let ctype = collect_strings(header, "CTYPE");
        let cdelt = collect_reals(header, "CDELT");
        let crval = collect_reals(header, "CRVAL");
        let crpix = collect_reals(header, "CRPIX");
        let n = match &crpix {
            Some(v) => v.len(),
            None => 0,
        };
        let cd = collect_matrix(header, "CD", n);
        let pc = collect_matrix(header, "PC", n);
        if cd.is_none() && pc.is_none() && cdelt.is_none() && crpix.is_none() && crval.is_none()
            && ctype.is_none() && cunit.is_none() {
            return Ok(None);
        }
        Ok(Some(WCS { wcaxes, ctype, crval, crpix, cdelt, cunit, cd, pc }))
    }
}

} // verus!
