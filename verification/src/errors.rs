//! The errors that decoding reports.

use crate::keyword::{KeywordValue, ValueView};
use vstd::prelude::*;

verus! {

/// What can go wrong in decoding.
#[derive(Debug, PartialEq)]
pub enum FITSError {
    /// Fewer than 2880 bytes are left for a header block.
    InvalidHeader,
    /// A keyword record that is not 80 bytes long, with its length.
    BadKeywordLength(usize),
    /// The name field of a record, where it holds a byte that no name may
    /// hold, or a blank between two other bytes.
    InvalidCharacterInKeyword(String),
    /// A record whose value field is no value of any kind.
    InvalidKeywordRecord(String),
    /// An older spelling of `UnsupportedExtension`; the decoder does not
    /// report it.
    UnspportedExtension(String),
    GenericError(String),
    /// A keyword that stands where another is required, with the index.
    InvalidKeywordPlacement(String, usize),
    /// An `XTENSION` value that names no kind of data that is decoded here.
    UnsupportedExtension(String),
    /// A keyword whose value is not of the type required.
    UnexpectedValueType(String),
    UnexpectedKeywordValue(String, KeywordValue),
    /// A required keyword that the header does not hold.
    MissingKeyword(String),
    InvalidTForm(String),
    /// The bytes needed and the bytes at hand.
    InvalidDataSize(usize, usize),
    /// The row asked for and the number of rows.
    InvalidRow(usize, usize),
    /// The column asked for and the number of columns.
    InvalidColumn(usize, usize),
}

/// The model of a `FITSError`.
pub enum ErrorView {
    InvalidHeader,
    BadKeywordLength(usize),
    InvalidCharacterInKeyword(Seq<char>),
    InvalidKeywordRecord(Seq<char>),
    UnspportedExtension(Seq<char>),
    GenericError(Seq<char>),
    InvalidKeywordPlacement(Seq<char>, usize),
    UnsupportedExtension(Seq<char>),
    UnexpectedValueType(Seq<char>),
    UnexpectedKeywordValue(Seq<char>, ValueView),
    MissingKeyword(Seq<char>),
    InvalidTForm(Seq<char>),
    InvalidDataSize(usize, usize),
    InvalidRow(usize, usize),
    InvalidColumn(usize, usize),
}

impl View for FITSError {
    type V = ErrorView;

    open spec fn view(&self) -> ErrorView {
        match self {
            FITSError::InvalidHeader => ErrorView::InvalidHeader,
            FITSError::BadKeywordLength(n) => ErrorView::BadKeywordLength(*n),
            FITSError::InvalidCharacterInKeyword(s) => ErrorView::InvalidCharacterInKeyword(s@),
            FITSError::InvalidKeywordRecord(s) => ErrorView::InvalidKeywordRecord(s@),
            FITSError::UnspportedExtension(s) => ErrorView::UnspportedExtension(s@),
            FITSError::GenericError(s) => ErrorView::GenericError(s@),
            FITSError::InvalidKeywordPlacement(s, i) => ErrorView::InvalidKeywordPlacement(s@, *i),
            FITSError::UnsupportedExtension(s) => ErrorView::UnsupportedExtension(s@),
            FITSError::UnexpectedValueType(s) => ErrorView::UnexpectedValueType(s@),
            FITSError::UnexpectedKeywordValue(s, v) => ErrorView::UnexpectedKeywordValue(s@, v@),
            FITSError::MissingKeyword(s) => ErrorView::MissingKeyword(s@),
            FITSError::InvalidTForm(s) => ErrorView::InvalidTForm(s@),
            FITSError::InvalidDataSize(a, b) => ErrorView::InvalidDataSize(*a, *b),
            FITSError::InvalidRow(a, b) => ErrorView::InvalidRow(*a, *b),
            FITSError::InvalidColumn(a, b) => ErrorView::InvalidColumn(*a, *b),
        }
    }
}

impl Clone for FITSError {
    fn clone(&self) -> (r: Self)
        ensures
            r == *self,
    {
        match self {
            FITSError::InvalidHeader => FITSError::InvalidHeader,
            FITSError::BadKeywordLength(n) => FITSError::BadKeywordLength(*n),
            FITSError::InvalidCharacterInKeyword(s) => FITSError::InvalidCharacterInKeyword(
                s.clone(),
            ),
            FITSError::InvalidKeywordRecord(s) => FITSError::InvalidKeywordRecord(s.clone()),
            FITSError::UnspportedExtension(s) => FITSError::UnspportedExtension(s.clone()),
            FITSError::GenericError(s) => FITSError::GenericError(s.clone()),
            FITSError::InvalidKeywordPlacement(s, i) => FITSError::InvalidKeywordPlacement(
                s.clone(),
                *i,
            ),
            FITSError::UnsupportedExtension(s) => FITSError::UnsupportedExtension(s.clone()),
            FITSError::UnexpectedValueType(s) => FITSError::UnexpectedValueType(s.clone()),
            FITSError::UnexpectedKeywordValue(s, v) => FITSError::UnexpectedKeywordValue(
                s.clone(),
                v.clone(),
            ),
            FITSError::MissingKeyword(s) => FITSError::MissingKeyword(s.clone()),
            FITSError::InvalidTForm(s) => FITSError::InvalidTForm(s.clone()),
            FITSError::InvalidDataSize(a, b) => FITSError::InvalidDataSize(*a, *b),
            FITSError::InvalidRow(a, b) => FITSError::InvalidRow(*a, *b),
            FITSError::InvalidColumn(a, b) => FITSError::InvalidColumn(*a, *b),
        }
    }
}

/// What a decoding step gives, as a model: the model of the value, or that
/// of the error.
pub open spec fn outcome<T: View>(r: Result<T, FITSError>) -> Result<T::V, ErrorView> {
    match r {
        Ok(v) => Ok(v@),
        Err(e) => Err(e@),
    }
}

/// A `GenericError` with the given message.
pub fn generic(message: &str) -> (r: FITSError)
    ensures
        r@ == ErrorView::GenericError(message@),
{
    FITSError::GenericError(message.to_owned())
}

/// The index of the first of the steps `i`, `i + 1`, ... below `n` that
/// fails, or `n`.
pub open spec fn first_bad<T>(f: spec_fn(int) -> Result<T, ErrorView>, n: int, i: int) -> int
    decreases n - i,
{
    if 0 <= i < n && f(i) is Ok {
        first_bad(f, n, i + 1)
    } else {
        i
    }
}

/// What `n` steps give that are taken in order until one fails: the error
/// of the first that fails, or what each of them gives.
pub open spec fn collect<T>(f: spec_fn(int) -> Result<T, ErrorView>, n: int) -> Result<
    Seq<T>,
    ErrorView,
> {
    let bad = first_bad(f, n, 0);
    if bad < n {
        Err(f(bad)->Err_0)
    } else {
        Ok(Seq::new(n as nat, |i: int| f(i)->Ok_0))
    }
}

/// Steps that give the same one by one fail at the same step.
pub proof fn lemma_first_bad_agrees<T>(
    f: spec_fn(int) -> Result<T, ErrorView>,
    g: spec_fn(int) -> Result<T, ErrorView>,
    n: int,
    i: int,
)
    requires
        0 <= i,
        forall|k: int| 0 <= k < n ==> #[trigger] f(k) == g(k),
    ensures
        first_bad(f, n, i) == first_bad(g, n, i),
        i <= first_bad(f, n, i),
    decreases n - i,
{
    if i < n {
        assert(f(i) == g(i));
        if f(i) is Ok {
            lemma_first_bad_agrees(f, g, n, i + 1);
        }
    }
}

/// Steps that give the same one by one give the same taken together.
pub proof fn lemma_collect_agrees<T>(
    f: spec_fn(int) -> Result<T, ErrorView>,
    g: spec_fn(int) -> Result<T, ErrorView>,
    n: int,
)
    requires
        0 <= n,
        forall|k: int| 0 <= k < n ==> #[trigger] f(k) == g(k),
    ensures
        collect(f, n) == collect(g, n),
{
    lemma_first_bad_agrees(f, g, n, 0);
    let bad = first_bad(f, n, 0);
    if 0 <= bad < n {
        assert(f(bad) == g(bad));
    } else if bad >= n {
        assert(Seq::new(n as nat, |i: int| f(i)->Ok_0) =~= Seq::new(n as nat, |i: int| g(i)->Ok_0))
            by {
            assert forall|i: int| 0 <= i < n implies (#[trigger] f(i))->Ok_0 == g(i)->Ok_0 by {}
        }
    }
}

} // verus!
