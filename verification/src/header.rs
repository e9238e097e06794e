//! Headers: the keywords of a header-data unit, in the order of the file.

use crate::errors::{ErrorView, FITSError};
use crate::keyword::{Keyword, KeywordValue, KeywordView, ValueView, parse_record};
use crate::strings::str_eq;
use crate::types::Real;
use vstd::prelude::*;
use vstd::slice::slice_subrange;

verus! {

/// The keywords of one header. Their order matters: the keywords that
/// describe the data are required at fixed positions.
#[derive(Debug, PartialEq)]
pub struct Header(pub Vec<Keyword>);

impl View for Header {
    type V = Seq<KeywordView>;

    open spec fn view(&self) -> Seq<KeywordView> {
        Seq::new(self.0@.len(), |i: int| self.0@[i]@)
    }
}

/// The index of the first keyword named `key` at or after `i`, or the
/// number of keywords.
pub open spec fn position_of(h: Seq<KeywordView>, key: Seq<char>, i: int) -> int
    decreases h.len() - i,
{
    if 0 <= i < h.len() && h[i].name != key {
        position_of(h, key, i + 1)
    } else {
        i
    }
}

/// The first keyword named `key`.
pub open spec fn lookup(h: Seq<KeywordView>, key: Seq<char>) -> Option<KeywordView> {
    let p = position_of(h, key, 0);
    if p < h.len() {
        Some(h[p])
    } else {
        None
    }
}

/// The value of the first keyword named `key`.
pub open spec fn value_of(h: Seq<KeywordView>, key: Seq<char>) -> Option<ValueView> {
    match lookup(h, key) {
        Some(k) => Some(k.value),
        None => None,
    }
}

/// The text of the first keyword named `key`, if its value is a string.
pub open spec fn string_of_key(h: Seq<KeywordView>, key: Seq<char>) -> Option<Seq<char>> {
    match value_of(h, key) {
        Some(ValueView::String(s)) => Some(s),
        _ => None,
    }
}

/// The number of the first keyword named `key`, if its value is an integer.
pub open spec fn int_of_key(h: Seq<KeywordView>, key: Seq<char>) -> Option<i64> {
    match value_of(h, key) {
        Some(ValueView::Int(i)) => Some(i),
        _ => None,
    }
}

/// The text of the number of the first keyword named `key`, if its value is
/// a real.
pub open spec fn real_of_key(h: Seq<KeywordView>, key: Seq<char>) -> Option<Seq<char>> {
    match value_of(h, key) {
        Some(ValueView::Float(x)) => Some(x),
        _ => None,
    }
}

/// The truth value of the first keyword named `key`, if its value is one.
pub open spec fn bool_of_key(h: Seq<KeywordView>, key: Seq<char>) -> Option<bool> {
    match value_of(h, key) {
        Some(ValueView::Bool(b)) => Some(b),
        _ => None,
    }
}

/// The model of an optional text.
pub open spec fn text_view(o: Option<String>) -> Option<Seq<char>> {
    match o {
        Some(s) => Some(s@),
        None => None,
    }
}

/// The model of an optional real.
pub open spec fn real_view(o: Option<Real>) -> Option<Seq<char>> {
    match o {
        Some(x) => Some(x@),
        None => None,
    }
}

impl Header {
    /// A header without keywords.
    pub fn new() -> (r: Header)
        ensures
            r@ == Seq::<KeywordView>::empty(),
    {
        let r = Header(Vec::new());
        assert(r@ =~= Seq::<KeywordView>::empty());
        r
    }

    /// The number of keywords.
    pub fn len(&self) -> (r: usize)
        ensures
            r == self@.len(),
    {
        self.0.len()
    }

    /// Whether the header has no keyword.
    pub fn is_empty(&self) -> (r: bool)
        ensures
            r == (self@.len() == 0),
    {
        self.0.len() == 0
    }

    /// The keyword at `index`, if there is one.
    pub fn get(&self, index: usize) -> (r: Option<&Keyword>)
        ensures
            match r {
                Some(k) => index < self@.len() && *k == self.0@[index as int] && k@
                    == self@[index as int],
                None => index >= self@.len(),
            },
    {
        if index < self.0.len() {
            Some(&self.0[index])
        } else {
            None
        }
    }

    /// Appends a keyword.
    pub fn push(&mut self, keyword: Keyword)
        ensures
            final(self)@ == old(self)@.push(keyword@),
            final(self).0@ == old(self).0@.push(keyword),
    {
        self.0.push(keyword);
        assert(self@ =~= old(self)@.push(keyword@));
    }

    /// The keywords in order.
    pub fn iter(&self) -> (r: &[Keyword])
        ensures
            r@ == self.0@,
    {
        self.0.as_slice()
    }

    /// The first keyword named `key`.
    pub fn find(&self, key: &str) -> (r: Option<&Keyword>)
        ensures
            match r {
                Some(k) => lookup(self@, key@) == Some(k@) && *k == self.0@[position_of(
                    self@,
                    key@,
                    0,
                )],
                None => lookup(self@, key@) is None,
            },
    {
        let mut i: usize = 0;
        while i < self.0.len()
            invariant
                i <= self@.len(),
                self@.len() == self.0@.len(),
                position_of(self@, key@, 0) == position_of(self@, key@, i as int),
            decreases self@.len() - i,
        {
            if str_eq(self.0[i].name.as_str(), key) {
                return Some(&self.0[i]);
            }
            i += 1;
        }
        None
    }

    /// The value of the first keyword named `key`.
    pub fn value(&self, key: &str) -> (r: Option<&KeywordValue>)
        ensures
            match r {
                Some(v) => value_of(self@, key@) == Some(v@),
                None => value_of(self@, key@) is None,
            },
    {
        match self.find(key) {
            Some(k) => Some(&k.value),
            None => None,
        }
    }

    /// The text of the first keyword named `key`, if its value is a string.
    pub fn value_string(&self, key: &str) -> (r: Option<String>)
        ensures
            text_view(r) == string_of_key(self@, key@),
    {
        match self.value(key) {
            Some(KeywordValue::String(s)) => Some(s.clone()),
            _ => None,
        }
    }

    /// The number of the first keyword named `key`, if its value is an
    /// integer.
    pub fn value_int(&self, key: &str) -> (r: Option<i64>)
        ensures
            r == int_of_key(self@, key@),
    {
        match self.value(key) {
            Some(KeywordValue::Int(i)) => Some(*i),
            _ => None,
        }
    }

    /// The number of the first keyword named `key`, if its value is a real.
    pub fn value_float(&self, key: &str) -> (r: Option<Real>)
        ensures
            real_view(r) == real_of_key(self@, key@),
    {
        match self.value(key) {
            Some(KeywordValue::Float(x)) => Some(x.clone()),
            _ => None,
        }
    }

    /// The truth value of the first keyword named `key`, if its value is
    /// one.
    pub fn value_bool(&self, key: &str) -> (r: Option<bool>)
        ensures
            r == bool_of_key(self@, key@),
    {
        match self.value(key) {
            Some(KeywordValue::Bool(b)) => Some(*b),
            _ => None,
        }
    }

    /// A cursor at the first keyword.
    pub fn into_iter(&self) -> (r: HeaderIntoIterator<'_>)
        ensures
            r.header == self,
            r.index == 0,
    {
        HeaderIntoIterator { header: self, index: 0 }
    }
}

impl Clone for Header {
    fn clone(&self) -> (r: Self)
        ensures
            r@ == self@,
    {
        let mut out: Vec<Keyword> = Vec::with_capacity(self.0.len());
        let mut i: usize = 0;
        while i < self.0.len()
            invariant
                i <= self.0@.len(),
                out@ == self.0@.subrange(0, i as int),
            decreases self.0@.len() - i,
        {
            out.push(self.0[i].clone());
            assert(out@ =~= self.0@.subrange(0, i + 1));
            i += 1;
        }
        let r = Header(out);
        assert(r@ =~= self@);
        r
    }
}

impl Default for Header {
    fn default() -> (r: Self)
        ensures
            r@ == Seq::<KeywordView>::empty(),
    {
        Header::new()
    }
}

/// A cursor over the keywords of a header, which hands out copies.
pub struct HeaderIntoIterator<'a> {
    pub header: &'a Header,
    pub index: usize,
}

impl<'a> HeaderIntoIterator<'a> {
    /// The keyword at the cursor, which then moves on; `None` at the end.
    pub fn next(&mut self) -> (r: Option<Keyword>)
        ensures
            final(self).header == old(self).header,
            match r {
                Some(k) => old(self).index < old(self).header@.len() && k@ == old(
                    self,
                ).header@[old(self).index as int] && final(self).index == old(self).index + 1,
                None => old(self).index >= old(self).header@.len() && final(self).index == old(
                    self,
                ).index,
            },
    {
        if self.index < self.header.0.len() {
            let kw = self.header.0[self.index].clone();
            self.index += 1;
            Some(kw)
        } else {
            None
        }
    }
}

/// The index of the first of the 36 records of a block, at or after `i`,
/// that does not decode; 36 if all decode.
pub open spec fn first_bad_record(block: Seq<u8>, i: int) -> int
    decreases 36 - i,
{
    if 0 <= i < 36 && parse_record(block.subrange(80 * i, 80 * i + 80)) is Ok {
        first_bad_record(block, i + 1)
    } else {
        i
    }
}

/// The keywords of a block of 2880 bytes: its 36 records decoded in order,
/// or the error of the first record that does not decode.
pub open spec fn block_records(block: Seq<u8>) -> Result<Seq<KeywordView>, ErrorView> {
    let bad = first_bad_record(block, 0);
    if block.len() != 2880 {
        Err(ErrorView::InvalidHeader)
    } else if bad < 36 {
        Err(parse_record(block.subrange(80 * bad, 80 * bad + 80))->Err_0)
    } else {
        Ok(Seq::new(36, |i: int| parse_record(block.subrange(80 * i, 80 * i + 80))->Ok_0))
    }
}

/// The 36 keyword records of one header block.
#[derive(Debug, PartialEq, Clone)]
pub struct FITSBlock(pub Vec<Keyword>);

impl View for FITSBlock {
    type V = Seq<KeywordView>;

    open spec fn view(&self) -> Seq<KeywordView> {
        Seq::new(self.0@.len(), |i: int| self.0@[i]@)
    }
}

impl FITSBlock {
    /// Decodes a block of 2880 bytes.
    pub fn from_bytes(bytes: &[u8]) -> (r: Result<FITSBlock, FITSError>)
        ensures
            crate::errors::outcome(r) == block_records(bytes@),
            r is Ok ==> r->Ok_0.0@.len() == 36,
    {
        if bytes.len() != 2880 {
            return Err(FITSError::InvalidHeader);
        }
        let mut records: Vec<Keyword> = Vec::with_capacity(36);
        let mut i: usize = 0;
        while i < 36
            invariant
                i <= 36,
                bytes@.len() == 2880,
                records@.len() == i,
                first_bad_record(bytes@, 0) == first_bad_record(bytes@, i as int),
                forall|k: int|
                    0 <= k < i ==> parse_record(bytes@.subrange(80 * k, 80 * k + 80)) == Ok::<
                        KeywordView,
                        ErrorView,
                    >(#[trigger] records@[k]@),
            decreases 36 - i,
        {
            match Keyword::new(slice_subrange(bytes, 80 * i, 80 * i + 80)) {
                Ok(k) => {
                    records.push(k);
                },
                Err(e) => {
                    return Err(e);
                },
            }
            i += 1;
        }
        let r = FITSBlock(records);
        assert(r@ =~= block_records(bytes@)->Ok_0);
        Ok(r)
    }
}

} // verus!
