//! Keywords: the name, value and comment that one 80-byte header record
//! holds.

use crate::errors::{ErrorView, FITSError, outcome};
use crate::strings::{lemma_ascii_bytes, string_of};
use crate::text::{
    COMMA, EQUALS, LEFT_PAREN, MINUS, PLUS, POINT, QUOTE, RIGHT_PAREN, SLASH, SPACE, UNDERSCORE, UPPER_A,
    UPPER_D, UPPER_E, UPPER_F, UPPER_T, UPPER_Z, all_ascii, chars_of, check_float_text, find_byte,
    find_from, i64_of, is_digit, is_float_text, is_sign, lemma_find_from_bounds, parse_i64, trim,
    trim_bytes, trim_start, trim_start_bytes,
};
use crate::types::Real;
use vstd::prelude::*;
use vstd::slice::slice_subrange;

verus! {

/// The value of a keyword.
#[derive(Debug, PartialEq)]
pub enum KeywordValue {
    /// The record has no value field.
    Absent,
    Bool(bool),
    String(String),
    Int(i64),
    Float(Real),
    ComplexInt(i64, i64),
    ComplexFloat(Real, Real),
    Undefined,
}

/// The model of a `KeywordValue`: texts are sequences of characters.
pub enum ValueView {
    Absent,
    Bool(bool),
    String(Seq<char>),
    Int(i64),
    Float(Seq<char>),
    ComplexInt(i64, i64),
    ComplexFloat(Seq<char>, Seq<char>),
    Undefined,
}

impl View for KeywordValue {
    type V = ValueView;

    open spec fn view(&self) -> ValueView {
        match self {
            KeywordValue::Absent => ValueView::Absent,
            KeywordValue::Bool(b) => ValueView::Bool(*b),
            KeywordValue::String(s) => ValueView::String(s@),
            KeywordValue::Int(i) => ValueView::Int(*i),
            KeywordValue::Float(x) => ValueView::Float(x@),
            KeywordValue::ComplexInt(re, im) => ValueView::ComplexInt(*re, *im),
            KeywordValue::ComplexFloat(re, im) => ValueView::ComplexFloat(re@, im@),
            KeywordValue::Undefined => ValueView::Undefined,
        }
    }
}

impl Clone for KeywordValue {
    fn clone(&self) -> (r: Self)
        ensures
            r == *self,
    {
        match self {
            KeywordValue::Absent => KeywordValue::Absent,
            KeywordValue::Bool(b) => KeywordValue::Bool(*b),
            KeywordValue::String(s) => KeywordValue::String(s.clone()),
            KeywordValue::Int(i) => KeywordValue::Int(*i),
            KeywordValue::Float(x) => KeywordValue::Float(x.clone()),
            KeywordValue::ComplexInt(re, im) => KeywordValue::ComplexInt(*re, *im),
            KeywordValue::ComplexFloat(re, im) => KeywordValue::ComplexFloat(re.clone(), im.clone()),
            KeywordValue::Undefined => KeywordValue::Undefined,
        }
    }
}

/// One keyword of a header.
#[derive(Debug, PartialEq)]
pub struct Keyword {
    pub name: String,
    pub value: KeywordValue,
    pub comment: Option<String>,
}

/// The model of a `Keyword`.
pub struct KeywordView {
    pub name: Seq<char>,
    pub value: ValueView,
    pub comment: Option<Seq<char>>,
}

impl View for Keyword {
    type V = KeywordView;

    open spec fn view(&self) -> KeywordView {
        KeywordView {
            name: self.name@,
            value: self.value@,
            comment: match self.comment {
                Some(c) => Some(c@),
                None => None,
            },
        }
    }
}

impl Clone for Keyword {
    fn clone(&self) -> (r: Self)
        ensures
            r == *self,
    {
        Keyword {
            name: self.name.clone(),
            value: self.value.clone(),
            comment: match &self.comment {
                Some(c) => Some(c.clone()),
                None => None,
            },
        }
    }
}

impl Default for Keyword {
    fn default() -> (r: Self)
        ensures
            r@ == (KeywordView { name: Seq::empty(), value: ValueView::Absent, comment: None }),
    {
        Keyword { name: String::new(), value: KeywordValue::Absent, comment: None }
    }
}

/// The classes of bytes by which a value field is told apart.
#[derive(Clone, Copy, PartialEq, Eq, Structural)]
pub enum ByteClass {
    /// Upper-case letters, digits, blank, `_` and `-`: what a name field may
    /// hold.
    Name,
    /// Digits and signs.
    Integer,
    /// Digits, signs, the point, `E` and `D`.
    Real,
    /// What an integer may hold, and blank, comma and parentheses.
    IntegerPair,
    /// What a real may hold, and blank, comma and parentheses.
    RealPair,
    /// The ASCII bytes.
    Ascii,
}

/// Whether a byte is of the class.
pub open spec fn in_class(class: ByteClass, b: u8) -> bool {
    let integer = is_digit(b) || is_sign(b);
    let decimal = integer || b == POINT || b == UPPER_E || b == UPPER_D;
    let pair = b == SPACE || b == COMMA || b == LEFT_PAREN || b == RIGHT_PAREN;
    match class {
        ByteClass::Name => (UPPER_A <= b && b <= UPPER_Z) || is_digit(b) || b == SPACE || b
            == UNDERSCORE || b == MINUS,
        ByteClass::Integer => integer,
        ByteClass::Real => decimal,
        ByteClass::IntegerPair => integer || pair,
        ByteClass::RealPair => decimal || pair,
        ByteClass::Ascii => b < 0x80,
    }
}

/// Whether every byte of `s` is of the class.
pub open spec fn all_in(class: ByteClass, s: Seq<u8>) -> bool {
    forall|i: int| 0 <= i < s.len() ==> in_class(class, #[trigger] s[i])
}

/// The index of the quote that closes a string, searched from `i` on, or the
/// length of `v`. Two quotes in a row stand for a quote inside the string.
pub open spec fn quote_end(v: Seq<u8>, i: int) -> int
    decreases v.len() - i,
{
    if 0 <= i < v.len() {
        if v[i] != QUOTE {
            quote_end(v, i + 1)
        } else if i + 1 < v.len() && v[i + 1] == QUOTE {
            quote_end(v, i + 2)
        } else {
            i
        }
    } else {
        i
    }
}

/// The comment in what follows a value: the text behind the first `/`,
/// without the blanks around it, unless the `/` is the last byte.
pub open spec fn comment_of(rest: Seq<u8>) -> Option<Seq<char>> {
    let p = find_from(rest, SLASH, 0);
    if p + 1 < rest.len() {
        Some(chars_of(trim(rest.subrange(p + 1, rest.len() as int))))
    } else {
        None
    }
}

/// `s` with each `D` replaced by `E`, so that an exponent written in the
/// Fortran way reads as any other.
pub open spec fn exponent_e(s: Seq<u8>) -> Seq<u8> {
    Seq::new(
        s.len(),
        |i: int|
            if s[i] == UPPER_D {
                UPPER_E
            } else {
                s[i]
            },
    )
}

/// The two parts of a pair written as `(a, b)`: what stands between the
/// first `(` and the first `)`, cut at its one comma, each part without the
/// blanks around it.
pub open spec fn pair_parts(c: Seq<u8>) -> Option<(Seq<u8>, Seq<u8>)> {
    let open = find_from(c, LEFT_PAREN, 0);
    let close = find_from(c, RIGHT_PAREN, 0);
    if open < close && close < c.len() {
        let inner = c.subrange(open + 1, close);
        let comma = find_from(inner, COMMA, 0);
        if comma < inner.len() && find_from(inner, COMMA, comma + 1) == inner.len() {
            Some((trim(inner.subrange(0, comma)), trim(inner.subrange(comma + 1, inner.len() as int))))
        } else {
            None
        }
    } else {
        None
    }
}

/// The text of a real number as the library keeps it, if `s` writes one.
pub open spec fn real_of(s: Seq<u8>) -> Option<Seq<char>> {
    if is_float_text(exponent_e(s)) {
        Some(chars_of(exponent_e(s)))
    } else {
        None
    }
}

/// The number in a value field of 70 bytes that holds neither a string nor a
/// truth value.
///
/// The first 20 bytes, without the blanks around them, are an integer if
/// they hold
/// digits and signs only, and a real if they hold what a real may hold.
/// Otherwise the rest of the field, as far as the first `/`, is read as a
/// pair of integers or of reals.
pub open spec fn number_of(v: Seq<u8>) -> Option<ValueView> {
    let first = trim(v.subrange(0, 20));
    let rest = trim_start(v.subrange(20, 70));
    let pair = rest.subrange(0, find_from(rest, SLASH, 0));
    if all_in(ByteClass::Integer, first) {
        match i64_of(first) {
            Some(n) => Some(ValueView::Int(n)),
            None => None,
        }
    } else if all_in(ByteClass::Real, first) {
        match real_of(first) {
            Some(x) => Some(ValueView::Float(x)),
            None => None,
        }
    } else if all_in(ByteClass::IntegerPair, pair) {
        match pair_parts(pair) {
            Some((a, b)) => match (i64_of(a), i64_of(b)) {
                (Some(re), Some(im)) => Some(ValueView::ComplexInt(re, im)),
                _ => None,
            },
            None => None,
        }
    } else if all_in(ByteClass::RealPair, pair) {
        match pair_parts(pair) {
            Some((a, b)) => match (real_of(a), real_of(b)) {
                (Some(re), Some(im)) => Some(ValueView::ComplexFloat(re, im)),
                _ => None,
            },
            None => None,
        }
    } else {
        None
    }
}

/// The keyword that an 80-byte record holds.
///
/// Bytes 0 to 7 are the name. The record has a value if byte 8 is `=` and
/// byte 9 a blank; the value field is then bytes 10 to 79 and must be ASCII.
/// A field that starts with a quote holds a string; one with `T` or `F` in
/// byte 29 holds a truth value; any other holds a number.
pub open spec fn parse_record(rec: Seq<u8>) -> Result<KeywordView, ErrorView> {
    let field = rec.subrange(0, 8);
    let name = trim(field);
    let v = rec.subrange(10, 80);
    if rec.len() != 80 {
        Err(ErrorView::BadKeywordLength(rec.len() as usize))
    } else if !all_in(ByteClass::Name, field) {
        Err(ErrorView::InvalidCharacterInKeyword(chars_of(field)))
    } else if find_from(name, SPACE, 0) < name.len() {
        Err(ErrorView::InvalidCharacterInKeyword(chars_of(name)))
    } else if !(rec[8] == EQUALS && rec[9] == SPACE) {
        Ok(KeywordView { name: chars_of(name), value: ValueView::Absent, comment: None })
    } else if !all_in(ByteClass::Ascii, v) {
        Err(ErrorView::InvalidKeywordRecord(chars_of(rec)))
    } else if v[0] == QUOTE {
        let end = quote_end(v, 1);
        Ok(
            KeywordView {
                name: chars_of(name),
                value: ValueView::String(chars_of(trim(v.subrange(1, end)))),
                comment: comment_of(v.subrange(end, 70)),
            },
        )
    } else if rec[29] == UPPER_T || rec[29] == UPPER_F {
        Ok(
            KeywordView {
                name: chars_of(name),
                value: ValueView::Bool(rec[29] == UPPER_T),
                comment: comment_of(v.subrange(20, 70)),
            },
        )
    } else {
        match number_of(v) {
            Some(value) => Ok(
                KeywordView { name: chars_of(name), value, comment: comment_of(v.subrange(20, 70)) },
            ),
            None => Err(ErrorView::InvalidKeywordRecord(chars_of(rec))),
        }
    }
}

fn byte_in_class(class: ByteClass, b: u8) -> (r: bool)
    ensures
        r == in_class(class, b),
{
    let digit = 0x30 <= b && b <= 0x39;
    let integer = digit || b == PLUS || b == MINUS;
    let decimal = integer || b == POINT || b == UPPER_E || b == UPPER_D;
    let pair = b == SPACE || b == COMMA || b == LEFT_PAREN || b == RIGHT_PAREN;
    match class {
        ByteClass::Name => (UPPER_A <= b && b <= UPPER_Z) || digit || b == SPACE || b
            == UNDERSCORE || b == MINUS,
        ByteClass::Integer => integer,
        ByteClass::Real => decimal,
        ByteClass::IntegerPair => integer || pair,
        ByteClass::RealPair => decimal || pair,
        ByteClass::Ascii => b < 0x80,
    }
}

/// Whether every byte of `s` is of the class.
pub fn bytes_in_class(class: ByteClass, s: &[u8]) -> (r: bool)
    ensures
        r == all_in(class, s@),
{
    let mut i: usize = 0;
    while i < s.len()
        invariant
            i <= s@.len(),
            forall|k: int| 0 <= k < i ==> in_class(class, #[trigger] s@[k]),
        decreases s@.len() - i,
    {
        if !byte_in_class(class, s[i]) {
            return false;
        }
        i += 1;
    }
    true
}

fn find_quote_end(v: &[u8], from: usize) -> (r: usize)
    requires
        from <= v@.len(),
    ensures
        r == quote_end(v@, from as int),
        from <= r <= v@.len(),
{
    let mut i: usize = from;
    while i < v.len()
        invariant
            from <= i <= v@.len(),
            quote_end(v@, from as int) == quote_end(v@, i as int),
        decreases v@.len() - i,
    {
        if v[i] != QUOTE {
            i += 1;
        } else if i + 1 < v.len() && v[i + 1] == QUOTE {
            i += 2;
        } else {
            return i;
        }
    }
    i
}

fn read_comment(rest: &[u8]) -> (r: Option<String>)
    ensures
        match r {
            Some(c) => comment_of(rest@) == Some(c@),
            None => comment_of(rest@) is None,
        },
{
    let p = find_byte(rest, SLASH, 0);
    if p < rest.len() && p + 1 < rest.len() {
        Some(string_of(trim_bytes(slice_subrange(rest, p + 1, rest.len()))))
    } else {
        None
    }
}

fn with_exponent_e(s: &[u8]) -> (r: Vec<u8>)
    ensures
        r@ == exponent_e(s@),
{
    let mut out: Vec<u8> = Vec::with_capacity(s.len());
    let mut i: usize = 0;
    while i < s.len()
        invariant
            i <= s@.len(),
            out@ == exponent_e(s@).subrange(0, i as int),
        decreases s@.len() - i,
    {
        let b = s[i];
        out.push(
            if b == UPPER_D {
                UPPER_E
            } else {
                b
            },
        );
        assert(out@ =~= exponent_e(s@).subrange(0, i + 1));
        i += 1;
    }
    assert(out@ =~= exponent_e(s@));
    out
}

/// Reads a real number and keeps its text.
pub fn read_real(s: &[u8]) -> (r: Option<Real>)
    ensures
        match r {
            Some(x) => real_of(s@) == Some(x@),
            None => real_of(s@) is None,
        },
{
    let t = with_exponent_e(s);
    if check_float_text(t.as_slice()) {
        Some(Real { text: string_of(t.as_slice()) })
    } else {
        None
    }
}

fn split_pair(c: &[u8]) -> (r: Option<(&[u8], &[u8])>)
    ensures
        match r {
            Some((a, b)) => pair_parts(c@) == Some((a@, b@)),
            None => pair_parts(c@) is None,
        },
{
    let open = find_byte(c, LEFT_PAREN, 0);
    let close = find_byte(c, RIGHT_PAREN, 0);
    if open < close && close < c.len() {
        let inner = slice_subrange(c, open + 1, close);
        let comma = find_byte(inner, COMMA, 0);
        if comma < inner.len() && find_byte(inner, COMMA, comma + 1) == inner.len() {
            let a = trim_bytes(slice_subrange(inner, 0, comma));
            let b = trim_bytes(slice_subrange(inner, comma + 1, inner.len()));
            Some((a, b))
        } else {
            None
        }
    } else {
        None
    }
}

fn read_number(v: &[u8]) -> (r: Option<KeywordValue>)
    requires
        v@.len() == 70,
    ensures
        match r {
            Some(value) => number_of(v@) == Some(value@),
            None => number_of(v@) is None,
        },
{
    let first = trim_bytes(slice_subrange(v, 0, 20));
    let rest = trim_start_bytes(slice_subrange(v, 20, 70));
    let pair = slice_subrange(rest, 0, find_byte(rest, SLASH, 0));
    if bytes_in_class(ByteClass::Integer, first) {
        match parse_i64(first) {
            Some(n) => Some(KeywordValue::Int(n)),
            None => None,
        }
    } else if bytes_in_class(ByteClass::Real, first) {
        match read_real(first) {
            Some(x) => Some(KeywordValue::Float(x)),
            None => None,
        }
    } else if bytes_in_class(ByteClass::IntegerPair, pair) {
        match split_pair(pair) {
            Some((a, b)) => match (parse_i64(a), parse_i64(b)) {
                (Some(re), Some(im)) => Some(KeywordValue::ComplexInt(re, im)),
                _ => None,
            },
            None => None,
        }
    } else if bytes_in_class(ByteClass::RealPair, pair) {
        match split_pair(pair) {
            Some((a, b)) => match (read_real(a), read_real(b)) {
                (Some(re), Some(im)) => Some(KeywordValue::ComplexFloat(re, im)),
                _ => None,
            },
            None => None,
        }
    } else {
        None
    }
}

impl Keyword {
    /// Decodes one 80-byte keyword record.
    pub fn new(kwstr: &[u8]) -> (r: Result<Keyword, FITSError>)
        ensures
            outcome(r) == parse_record(kwstr@),
            r is Ok ==> well_formed(r->Ok_0@),
    {
        proof {
            if parse_record(kwstr@) is Ok {
                lemma_record_is_well_formed(kwstr@);
            }
        }
        if kwstr.len() != 80 {
            return Err(FITSError::BadKeywordLength(kwstr.len()));
        }
        let field = slice_subrange(kwstr, 0, 8);
        if !bytes_in_class(ByteClass::Name, field) {
            return Err(FITSError::InvalidCharacterInKeyword(string_of(field)));
        }
        let name = trim_bytes(field);
        let blank = find_byte(name, SPACE, 0);
        if blank < name.len() {
            return Err(FITSError::InvalidCharacterInKeyword(string_of(name)));
        }
        if !(kwstr[8] == EQUALS && kwstr[9] == SPACE) {
            return Ok(Keyword { name: string_of(name), value: KeywordValue::Absent, comment: None });
        }
        let v = slice_subrange(kwstr, 10, 80);
        if !bytes_in_class(ByteClass::Ascii, v) {
            return Err(FITSError::InvalidKeywordRecord(string_of(kwstr)));
        }
        if v[0] == QUOTE {
            let end = find_quote_end(v, 1);
            let value = KeywordValue::String(string_of(trim_bytes(slice_subrange(v, 1, end))));
            let comment = read_comment(slice_subrange(v, end, 70));
            return Ok(Keyword { name: string_of(name), value, comment });
        }
        if kwstr[29] == UPPER_T || kwstr[29] == UPPER_F {
            let comment = read_comment(slice_subrange(v, 20, 70));
            return Ok(
                Keyword {
                    name: string_of(name),
                    value: KeywordValue::Bool(kwstr[29] == UPPER_T),
                    comment,
                },
            );
        }
        match read_number(v) {
            Some(value) => {
                let comment = read_comment(slice_subrange(v, 20, 70));
                Ok(Keyword { name: string_of(name), value, comment })
            },
            None => Err(FITSError::InvalidKeywordRecord(string_of(kwstr))),
        }
    }
}

/// Whether a keyword is as a record can give it: its name has at most 8
/// characters, each an upper-case letter, a digit, `_` or `-`; and a real
/// value is the text of a floating-point number.
pub open spec fn well_formed(k: KeywordView) -> bool {
    &&& k.name.len() <= 8
    &&& forall|i: int|
        0 <= i < k.name.len() ==> {
            let c = #[trigger] k.name[i];
            ('A' <= c && c <= 'Z') || ('0' <= c && c <= '9') || c == '_' || c == '-'
        }
    &&& match k.value {
        ValueView::Float(x) => is_float_text(vstd::utf8::encode_utf8(x)),
        ValueView::ComplexFloat(re, im) => is_float_text(vstd::utf8::encode_utf8(re))
            && is_float_text(vstd::utf8::encode_utf8(im)),
        _ => true,
    }
}

/// The text that is kept of a real number is the text of a floating-point
/// number.
pub proof fn lemma_real_is_float_text(s: Seq<u8>)
    requires
        all_in(ByteClass::Ascii, s),
        real_of(s) is Some,
    ensures
        is_float_text(vstd::utf8::encode_utf8(real_of(s)->Some_0)),
{
    let t = exponent_e(s);
    assert(all_ascii(t)) by {
        assert forall|i: int| 0 <= i < t.len() implies #[trigger] t[i] < 0x80 by {
            assert(in_class(ByteClass::Ascii, s[i]));
        }
    }
    lemma_ascii_bytes(t);
}

/// Text without the blanks around it holds bytes of the text only.
pub proof fn lemma_trim_keeps_class(class: ByteClass, s: Seq<u8>)
    requires
        all_in(class, s),
    ensures
        all_in(class, trim(s)),
        all_in(class, trim_start(s)),
        trim(s).len() <= s.len(),
{
    crate::text::lemma_skip_blanks_bounds(s, 0);
    let t = trim_start(s);
    crate::text::lemma_skip_blanks_back_bounds(t, t.len() as int);
    assert forall|i: int| 0 <= i < t.len() implies in_class(class, #[trigger] t[i]) by {
        assert(t[i] == s[i + crate::text::skip_blanks(s, 0)]);
    }
    assert forall|i: int| 0 <= i < trim(s).len() implies in_class(class, #[trigger] trim(s)[i]) by {
        assert(trim(s)[i] == t[i]);
    }
}

/// Every keyword that a record gives is well formed.
pub proof fn lemma_record_is_well_formed(rec: Seq<u8>)
    requires
        parse_record(rec) is Ok,
    ensures
        well_formed(parse_record(rec)->Ok_0),
{
    let k = parse_record(rec)->Ok_0;
    let field = rec.subrange(0, 8);
    let name = trim(field);
    lemma_trim_keeps_class(ByteClass::Name, field);
    lemma_find_from_bounds(name, SPACE, 0);
    assert(k.name == chars_of(name));
    assert forall|i: int| 0 <= i < k.name.len() implies {
        let c = #[trigger] k.name[i];
        ('A' <= c && c <= 'Z') || ('0' <= c && c <= '9') || c == '_' || c == '-'
    } by {
        assert(in_class(ByteClass::Name, name[i]));
        assert(name[i] != SPACE);
    }
    if rec[8] == EQUALS && rec[9] == SPACE {
        let v = rec.subrange(10, 80);
        if v[0] != QUOTE && !(rec[29] == UPPER_T || rec[29] == UPPER_F) {
            let first = trim(v.subrange(0, 20));
            let rest = trim_start(v.subrange(20, 70));
            let pair = rest.subrange(0, find_from(rest, SLASH, 0));
            assert(all_in(ByteClass::Ascii, v.subrange(0, 20))) by {
                assert forall|i: int| 0 <= i < 20 implies in_class(
                    ByteClass::Ascii,
                    #[trigger] v.subrange(0, 20)[i],
                ) by {
                    assert(in_class(ByteClass::Ascii, v[i]));
                }
            }
            assert(all_in(ByteClass::Ascii, v.subrange(20, 70))) by {
                assert forall|i: int| 0 <= i < 50 implies in_class(
                    ByteClass::Ascii,
                    #[trigger] v.subrange(20, 70)[i],
                ) by {
                    assert(in_class(ByteClass::Ascii, v[i + 20]));
                }
            }
            lemma_trim_keeps_class(ByteClass::Ascii, v.subrange(0, 20));
            lemma_trim_keeps_class(ByteClass::Ascii, v.subrange(20, 70));
            if k.value is Float {
                lemma_real_is_float_text(first);
            }
            if k.value is ComplexFloat {
                lemma_find_from_bounds(rest, SLASH, 0);
                lemma_find_from_bounds(pair, LEFT_PAREN, 0);
                lemma_find_from_bounds(pair, RIGHT_PAREN, 0);
                let open = find_from(pair, LEFT_PAREN, 0);
                let close = find_from(pair, RIGHT_PAREN, 0);
                let inner = pair.subrange(open + 1, close);
                lemma_find_from_bounds(inner, COMMA, 0);
                let comma = find_from(inner, COMMA, 0);
                let a = inner.subrange(0, comma);
                let b = inner.subrange(comma + 1, inner.len() as int);
                assert(all_in(ByteClass::Ascii, a)) by {
                    assert forall|i: int| 0 <= i < a.len() implies in_class(
                        ByteClass::Ascii,
                        #[trigger] a[i],
                    ) by {
                        assert(a[i] == rest[i + open + 1]);
                        assert(in_class(ByteClass::Ascii, rest[i + open + 1]));
                    }
                }
                assert(all_in(ByteClass::Ascii, b)) by {
                    assert forall|i: int| 0 <= i < b.len() implies in_class(
                        ByteClass::Ascii,
                        #[trigger] b[i],
                    ) by {
                        assert(b[i] == rest[i + comma + 1 + open + 1]);
                        assert(in_class(ByteClass::Ascii, rest[i + comma + 1 + open + 1]));
                    }
                }
                lemma_trim_keeps_class(ByteClass::Ascii, a);
                lemma_trim_keeps_class(ByteClass::Ascii, b);
                lemma_real_is_float_text(trim(a));
                lemma_real_is_float_text(trim(b));
            }
        }
    }
}

} // verus!
